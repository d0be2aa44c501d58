//! The parser that decodes updates in full, and what is common to both parsers.
use std::sync::Arc;

use vstd::prelude::*;

use crate::account::{MessageAccount, MessageAccountView};
use crate::again;
use crate::again::BlockParts;
use crate::codec;
use crate::codec::Timestamp;
use crate::encode;
use crate::error;
use crate::error::DecodeErrorKind;
use crate::geyser;
use crate::geyser::{
    AccountInfoView, AccountView, BlockMetaView, EntryView, SlotStatus, SlotView,
    SubscribeUpdateAccountInfo, SubscribeUpdateBlockMeta, SubscribeUpdateEntry, SubscribeUpdateSlot,
    SubscribeUpdateTransactionInfo, TransactionInfoView, TransactionMetaView, TransactionStatusMeta,
};
use crate::message;
use crate::message::{
    Message, MessageBlock, MessageBlockCreatedAt, MessageBlockMeta, MessageBlockMetaView,
    MessageBlockView, MessageEntry, MessageEntryView, MessageParseError, MessageParserEncoding,
    MessageParserLimited, MessageSlot, MessageSlotView, MessageTransaction, MessageTransactionView,
    MessageView, ParseFailure,
};
use crate::plugin;
use crate::protobuf::ProtobufMessage;
use crate::pubkey::{PUBKEY_BYTES, Pubkey, PubkeySet, SIGNATURE_BYTES, Slot};
use crate::richat;
use crate::richat::SubscribeUpdateRichat;
use crate::round_trip;
use crate::told;
use crate::wire;
use crate::wire::WireType;

verus! {

// ---------------------------------------------------------------------------------------------
// What the messages are
// ---------------------------------------------------------------------------------------------

/// The number as a size. A size that no machine can hold is the largest one.
pub open spec fn size_of(n: nat) -> nat {
    if n <= usize::MAX {
        n
    } else {
        usize::MAX as nat
    }
}

/// The bytes are no message.
pub open spec fn malformed() -> ParseFailure {
    ParseFailure::Prost(error::failure(DecodeErrorKind::InvalidMessage))
}

/// Whether `r` is `expected`.
pub open spec fn is_result<T: View>(
    r: Result<T, MessageParseError>,
    expected: Result<T::V, ParseFailure>,
) -> bool {
    match expected {
        Ok(m) => r is Ok && r->Ok_0@ == m,
        Err(e) => r is Err && r->Err_0@ == e,
    }
}

/// The slot message of a slot update.
pub open spec fn full_slot(m: SlotView, created_at: Timestamp, len: nat) -> Result<
    MessageSlotView,
    ParseFailure,
> {
    match geyser::slot_status_of(m.status) {
        Some(status) => Ok(
            MessageSlotView::Prost {
                slot: m.slot,
                parent: m.parent,
                status,
                dead_error: m.dead_error,
                created_at,
                size: len,
            },
        ),
        None => Err(ParseFailure::InvalidEnumValue(m.status)),
    }
}

/// The account message of an account.
pub open spec fn full_account(
    m: AccountInfoView,
    slot: u64,
    is_startup: bool,
    created_at: Timestamp,
    size: nat,
) -> Result<MessageAccountView, ParseFailure> {
    if m.pubkey.len() == 32 && m.owner.len() == 32 {
        Ok(
            MessageAccountView::Prost {
                pubkey: m.pubkey,
                owner: m.owner,
                account: m,
                slot,
                is_startup,
                created_at,
                size,
            },
        )
    } else {
        Err(ParseFailure::InvalidPubkey)
    }
}

/// The static and the loaded keys of a transaction, in order.
pub open spec fn listed_keys(
    static_keys: Option<Seq<Seq<u8>>>,
    meta: TransactionMetaView,
) -> Seq<Seq<u8>> {
    (match static_keys {
        Some(keys) => keys,
        None => Seq::empty(),
    }) + meta.loaded_writable_addresses + meta.loaded_readonly_addresses
}

/// Whether each of the keys has 32 bytes.
pub open spec fn all_keys(keys: Seq<Seq<u8>>) -> bool {
    forall|i: int| 0 <= i < keys.len() ==> (#[trigger] keys[i]).len() == 32
}

/// The account keys of a transaction.
pub open spec fn full_keys(m: TransactionInfoView, meta: TransactionMetaView) -> Result<
    Set<Seq<u8>>,
    ParseFailure,
> {
    match m.transaction {
        None => Err(ParseFailure::FieldNotDefined("transaction")),
        Some(t) => {
            let keys = listed_keys(t.account_keys, meta);
            if all_keys(keys) {
                Ok(keys.to_set())
            } else {
                Err(ParseFailure::InvalidPubkey)
            }
        },
    }
}

/// The transaction message of a transaction.
pub open spec fn full_transaction(
    m: TransactionInfoView,
    slot: u64,
    created_at: Timestamp,
    len: nat,
) -> Result<MessageTransactionView, ParseFailure> {
    match m.meta {
        None => Err(ParseFailure::FieldNotDefined("meta")),
        Some(meta) => match full_keys(m, meta) {
            Err(e) => Err(e),
            Ok(keys) => Ok(
                MessageTransactionView::Prost {
                    error: meta.err,
                    account_keys: keys,
                    transaction: m,
                    slot,
                    created_at,
                    size: size_of(len + 64),
                },
            ),
        },
    }
}

/// The entry message of an entry.
pub open spec fn full_entry(m: EntryView, created_at: Timestamp, len: nat) -> MessageEntryView {
    MessageEntryView::Prost { entry: m, created_at, size: len }
}

/// The block metadata message of metadata.
pub open spec fn full_block_meta(m: BlockMetaView, created_at: Timestamp, len: nat) -> Result<
    MessageBlockMetaView,
    ParseFailure,
> {
    match m.block_height {
        Some(block_height) => Ok(
            MessageBlockMetaView::Prost { block_meta: m, block_height, created_at, size: len },
        ),
        None => Err(ParseFailure::FieldNotDefined("block_height")),
    }
}

/// All values, or the first failure.
pub open spec fn all_ok<V>(results: Seq<Result<V, ParseFailure>>) -> Result<Seq<V>, ParseFailure>
    decreases results.len(),
{
    if results.len() == 0 {
        Ok(Seq::empty())
    } else {
        match (all_ok(results.drop_last()), results.last()) {
            (Err(e), _) => Err(e),
            (Ok(_), Err(e)) => Err(e),
            (Ok(before), Ok(v)) => Ok(before.push(v)),
        }
    }
}

/// The account messages of the accounts of a block.
pub open spec fn full_accounts(
    accounts: Seq<AccountInfoView>,
    slot: u64,
    created_at: Timestamp,
) -> Result<Seq<MessageAccountView>, ParseFailure> {
    all_ok(
        accounts.map_values(
            |m: AccountInfoView|
                full_account(
                    m,
                    slot,
                    false,
                    created_at,
                    size_of(encode::account_info_bytes(m).len() + 96),
                ),
        ),
    )
}

/// The transaction messages of the transactions of a block.
pub open spec fn full_transactions(
    transactions: Seq<TransactionInfoView>,
    slot: u64,
    created_at: Timestamp,
    len: nat,
) -> Result<Seq<MessageTransactionView>, ParseFailure> {
    all_ok(
        transactions.map_values(
            |m: TransactionInfoView| full_transaction(m, slot, created_at, len),
        ),
    )
}

/// The entry messages of the entries of a block.
pub open spec fn full_entries(entries: Seq<EntryView>, created_at: Timestamp) -> Seq<
    MessageEntryView,
> {
    entries.map_values(
        |m: EntryView| full_entry(m, created_at, size_of(encode::entry_bytes(m).len())),
    )
}

/// The block message of a block.
#[verifier::opaque]
pub open spec fn full_block(
    meta: BlockMetaView,
    transactions: Seq<TransactionInfoView>,
    accounts: Seq<AccountInfoView>,
    entries: Seq<EntryView>,
    created_at: Timestamp,
    len: nat,
) -> Result<MessageBlockView, ParseFailure> {
    match full_accounts(accounts, meta.slot, created_at) {
        Err(e) => Err(e),
        Ok(accounts) => match full_transactions(transactions, meta.slot, created_at, len) {
            Err(e) => Err(e),
            Ok(transactions) => match full_block_meta(
                meta,
                created_at,
                size_of(encode::block_meta_bytes(meta).len()),
            ) {
                Err(e) => Err(e),
                Ok(block_meta) => Ok(
                    MessageBlockView {
                        accounts,
                        transactions,
                        entries: full_entries(entries, created_at),
                        block_meta,
                        created_at: MessageBlockCreatedAt::Prost(created_at),
                    },
                ),
            },
        },
    }
}

// ---------------------------------------------------------------------------------------------
// Making messages of decoded updates
// ---------------------------------------------------------------------------------------------

/// The number `a + b`, or the largest one.
pub fn sum(a: usize, b: usize) -> (r: usize)
    ensures
        r == size_of((a + b) as nat),
{
    if a <= usize::MAX - b {
        a + b
    } else {
        usize::MAX
    }
}

/// Adds the keys to the set, unless one of them has not 32 bytes.
fn add_keys(set: &mut PubkeySet, keys: &Vec<Vec<u8>>) -> (r: bool)
    ensures
        r == all_keys(geyser::bytes_each(keys@)),
        r ==> final(set)@ == old(set)@.union(geyser::bytes_each(keys@).to_set()),
{
    let ghost all = geyser::bytes_each(keys@);
    let mut i: usize = 0;
    assert(all.take(0).to_set() =~= Set::<Seq<u8>>::empty());
    assert(old(set)@.union(all.take(0).to_set()) =~= set@);
    while i < keys.len()
        invariant
            i <= keys@.len(),
            all == geyser::bytes_each(keys@),
            all_keys(all.take(i as int)),
            set@ == old(set)@.union(all.take(i as int).to_set()),
        decreases keys@.len() - i,
    {
        match Pubkey::from_slice(keys[i].as_slice()) {
            Some(key) => {
                set.insert(key);
                proof {
                    let next = all.take(i + 1);
                    assert(next =~= all.take(i as int).push(key@));
                    assert forall|t: Seq<u8>|
                        next.contains(t) <==> all.take(i as int).contains(t) || t == key@ by {
                        if all.take(i as int).contains(t) {
                            let j = choose|j: int|
                                0 <= j < all.take(i as int).len() && all.take(i as int)[j] == t;
                            assert(next[j] == t);
                        }
                        assert(next[i as int] == key@);
                    }
                    assert(set@ =~= old(set)@.union(next.to_set()));
                }
            },
            None => {
                assert(all[i as int] == keys@[i as int]@);
                return false;
            },
        }
        i = i + 1;
    }
    assert(all.take(all.len() as int) =~= all);
    true
}

/// The union of the sets of two lists is the set of both.
proof fn lemma_both(a: Seq<Seq<u8>>, b: Seq<Seq<u8>>)
    ensures
        (a + b).to_set() == a.to_set().union(b.to_set()),
        all_keys(a + b) == (all_keys(a) && all_keys(b)),
{
    let c = a + b;
    assert forall|t: Seq<u8>| c.contains(t) <==> a.contains(t) || b.contains(t) by {
        if a.contains(t) {
            let j = choose|j: int| 0 <= j < a.len() && a[j] == t;
            assert(c[j] == t);
        }
        if b.contains(t) {
            let j = choose|j: int| 0 <= j < b.len() && b[j] == t;
            assert(c[a.len() + j] == t);
        }
    }
    assert(c.to_set() =~= a.to_set().union(b.to_set()));
    if all_keys(c) {
        assert forall|i: int| 0 <= i < a.len() implies (#[trigger] a[i]).len() == 32 by {
            assert(c[i] == a[i]);
        }
        assert forall|i: int| 0 <= i < b.len() implies (#[trigger] b[i]).len() == 32 by {
            assert(c[a.len() + i] == b[i]);
        }
    }
}

impl MessageTransaction {
    /// The static and the loaded account keys of a transaction.
    pub fn gen_account_keys_prost(
        transaction: &SubscribeUpdateTransactionInfo,
        meta: &TransactionStatusMeta,
    ) -> (r: Result<PubkeySet, MessageParseError>)
        ensures
            is_result(r, full_keys(transaction@, meta@)),
    {
        let mut account_keys = PubkeySet::new();
        let body = match &transaction.transaction {
            Some(body) => body,
            None => return Err(MessageParseError::FieldNotDefined("transaction")),
        };
        let ghost first: Seq<Seq<u8>> = match body@.account_keys {
            Some(keys) => keys,
            None => Seq::empty(),
        };
        let ghost second = geyser::bytes_each(meta.loaded_writable_addresses@);
        let ghost third = geyser::bytes_each(meta.loaded_readonly_addresses@);
        proof {
            lemma_both(first, second);
            lemma_both(first + second, third);
        }
        if let Some(keys) = &body.account_keys {
            if !add_keys(&mut account_keys, keys) {
                return Err(MessageParseError::InvalidPubkey);
            }
        }
        assert(account_keys@ =~= first.to_set());
        if !add_keys(&mut account_keys, &meta.loaded_writable_addresses) {
            return Err(MessageParseError::InvalidPubkey);
        }
        if !add_keys(&mut account_keys, &meta.loaded_readonly_addresses) {
            return Err(MessageParseError::InvalidPubkey);
        }
        Ok(account_keys)
    }
}

/// The parser that decodes updates in full.
#[derive(Debug)]
pub struct MessageParserProst;

impl MessageParserProst {
    /// The slot message of a slot update.
    pub fn from_slot(message: SubscribeUpdateSlot, created_at: Timestamp, encoded_len: usize) -> (r:
        Result<MessageSlot, MessageParseError>)
        ensures
            is_result(r, full_slot(message@, created_at, encoded_len as nat)),
    {
        match SlotStatus::from_number(message.status) {
            Some(status) => Ok(
                MessageSlot::Prost {
                    slot: message.slot,
                    parent: message.parent,
                    status,
                    dead_error: message.dead_error,
                    created_at,
                    size: encoded_len,
                },
            ),
            None => Err(MessageParseError::InvalidEnumValue(message.status)),
        }
    }

    /// The account message of an account.
    pub fn from_account(
        account: SubscribeUpdateAccountInfo,
        slot: Slot,
        is_startup: bool,
        created_at: Timestamp,
        size: usize,
    ) -> (r: Result<MessageAccount, MessageParseError>)
        ensures
            is_result(r, full_account(account@, slot, is_startup, created_at, size as nat)),
    {
        let pubkey = match Pubkey::from_slice(account.pubkey.as_slice()) {
            Some(pubkey) => pubkey,
            None => return Err(MessageParseError::InvalidPubkey),
        };
        let owner = match Pubkey::from_slice(account.owner.as_slice()) {
            Some(owner) => owner,
            None => return Err(MessageParseError::InvalidPubkey),
        };
        Ok(MessageAccount::Prost { pubkey, owner, account, slot, is_startup, created_at, size })
    }

    /// The transaction message of a transaction.
    pub fn from_transaction(
        transaction: SubscribeUpdateTransactionInfo,
        slot: Slot,
        created_at: Timestamp,
        encoded_len: usize,
    ) -> (r: Result<MessageTransaction, MessageParseError>)
        ensures
            is_result(r, full_transaction(transaction@, slot, created_at, encoded_len as nat)),
    {
        let (account_keys, error) = match &transaction.meta {
            Some(meta) => {
                match MessageTransaction::gen_account_keys_prost(&transaction, meta) {
                    Ok(account_keys) => (account_keys, geyser::copy_error(&meta.err)),
                    Err(e) => return Err(e),
                }
            },
            None => return Err(MessageParseError::FieldNotDefined("meta")),
        };
        let size: usize = sum(encoded_len, SIGNATURE_BYTES);
        Ok(MessageTransaction::Prost { error, account_keys, transaction, slot, created_at, size })
    }

    /// The entry message of an entry.
    pub fn from_entry(entry: SubscribeUpdateEntry, created_at: Timestamp, encoded_len: usize) -> (r:
        MessageEntry)
        ensures
            r@ == full_entry(entry@, created_at, encoded_len as nat),
    {
        MessageEntry::Prost { entry, created_at, size: encoded_len }
    }

    /// The block metadata message of metadata.
    pub fn from_block_meta(
        block_meta: SubscribeUpdateBlockMeta,
        created_at: Timestamp,
        encoded_len: usize,
    ) -> (r: Result<MessageBlockMeta, MessageParseError>)
        ensures
            is_result(r, full_block_meta(block_meta@, created_at, encoded_len as nat)),
    {
        match block_meta.block_height {
            Some(block_height) => Ok(
                MessageBlockMeta::Prost { block_meta, block_height, created_at, size: encoded_len },
            ),
            None => Err(MessageParseError::FieldNotDefined("block_height")),
        }
    }
}

// ---------------------------------------------------------------------------------------------
// Blocks
// ---------------------------------------------------------------------------------------------

/// Where the first values fail, all fail in the same way.
proof fn lemma_first_failure<V>(results: Seq<Result<V, ParseFailure>>, i: int)
    requires
        0 <= i <= results.len(),
        all_ok(results.take(i)) is Err,
    ensures
        all_ok(results) == all_ok(results.take(i)),
    decreases results.len() - i,
{
    if i < results.len() {
        assert(results.take(i + 1).drop_last() =~= results.take(i));
        lemma_first_failure(results, i + 1);
    } else {
        assert(results.take(i) =~= results);
    }
}

/// What `items` hold.
pub open spec fn views<T: View>(items: Seq<T>) -> Seq<T::V> {
    items.map_values(|m: T| m@)
}

/// What shared `items` hold.
pub open spec fn shared_views<T: View>(items: Seq<Arc<T>>) -> Seq<T::V> {
    items.map_values(|m: Arc<T>| (*m)@)
}

/// The length of the encoded account.
fn account_len(account: &SubscribeUpdateAccountInfo) -> (r: usize)
    ensures
        r == size_of(encode::account_info_bytes(account@).len()),
{
    let mut buf: Vec<u8> = Vec::new();
    let signature: Option<&[u8]> = match &account.txn_signature {
        Some(signature) => Some(signature.as_slice()),
        None => None,
    };
    encode::account_info_encode(
        account.pubkey.as_slice(),
        account.lamports,
        account.owner.as_slice(),
        account.executable,
        account.rent_epoch,
        account.data.as_slice(),
        account.write_version,
        signature,
        &mut buf,
    );
    assert(buf@ =~= encode::account_info_bytes(account@));
    buf.len()
}

/// The account messages of the accounts of a block.
fn accounts_of(accounts: Vec<SubscribeUpdateAccountInfo>, slot: Slot, created_at: Timestamp) -> (r:
    Result<Vec<Arc<MessageAccount>>, MessageParseError>)
    ensures
        match full_accounts(views(accounts@), slot, created_at) {
            Ok(ms) => r is Ok && shared_views(r->Ok_0@) == ms,
            Err(e) => r is Err && r->Err_0@ == e,
        },
{
    let ghost f = |m: AccountInfoView|
        full_account(
            m,
            slot,
            false,
            created_at,
            size_of(encode::account_info_bytes(m).len() + 96),
        );
    let ghost results = views(accounts@).map_values(f);
    let ghost all = accounts@;
    let mut messages: Vec<Arc<MessageAccount>> = Vec::new();
    assert(results.take(0) =~= Seq::<Result<MessageAccountView, ParseFailure>>::empty());
    assert(shared_views(messages@) =~= Seq::<MessageAccountView>::empty());
    for account in iter: accounts
        invariant
            iter.seq() == all,
            f == (|m: AccountInfoView|
                full_account(
                    m,
                    slot,
                    false,
                    created_at,
                    size_of(encode::account_info_bytes(m).len() + 96),
                )),
            results == views(all).map_values(f),
            all_ok(results.take(iter.index() as int)) == Ok::<
                Seq<MessageAccountView>,
                ParseFailure,
            >(shared_views(messages@)),
    {
        let ghost i = iter.index() as int;
        proof {
            assert(results.take(i + 1).drop_last() =~= results.take(i));
            assert(results.take(i + 1).last() == f(account@));
        }
        let len: usize = account_len(&account);
        let size: usize = sum(len, PUBKEY_BYTES + PUBKEY_BYTES + 32);
        match MessageParserProst::from_account(account, slot, false, created_at, size) {
            Ok(message) => {
                let ghost before = messages@;
                messages.push(Arc::new(message));
                assert(shared_views(messages@) =~= shared_views(before).push(message@));
            },
            Err(e) => {
                proof {
                    lemma_first_failure(results, i + 1);
                }
                return Err(e);
            },
        }
    }
    assert(results.take(results.len() as int) =~= results);
    Ok(messages)
}

/// The transaction messages of the transactions of a block.
fn transactions_of(
    transactions: Vec<SubscribeUpdateTransactionInfo>,
    slot: Slot,
    created_at: Timestamp,
    encoded_len: usize,
) -> (r: Result<Vec<Arc<MessageTransaction>>, MessageParseError>)
    ensures
        match full_transactions(views(transactions@), slot, created_at, encoded_len as nat) {
            Ok(ms) => r is Ok && shared_views(r->Ok_0@) == ms,
            Err(e) => r is Err && r->Err_0@ == e,
        },
{
    let ghost f = |m: TransactionInfoView|
        full_transaction(m, slot, created_at, encoded_len as nat);
    let ghost results = views(transactions@).map_values(f);
    let ghost all = transactions@;
    let mut messages: Vec<Arc<MessageTransaction>> = Vec::new();
    assert(results.take(0) =~= Seq::<Result<MessageTransactionView, ParseFailure>>::empty());
    assert(shared_views(messages@) =~= Seq::<MessageTransactionView>::empty());
    for transaction in iter: transactions
        invariant
            iter.seq() == all,
            f == (|m: TransactionInfoView|
                full_transaction(m, slot, created_at, encoded_len as nat)),
            results == views(all).map_values(f),
            all_ok(results.take(iter.index() as int)) == Ok::<
                Seq<MessageTransactionView>,
                ParseFailure,
            >(shared_views(messages@)),
    {
        let ghost i = iter.index() as int;
        proof {
            assert(results.take(i + 1).drop_last() =~= results.take(i));
            assert(results.take(i + 1).last() == f(transaction@));
        }
        match MessageParserProst::from_transaction(transaction, slot, created_at, encoded_len) {
            Ok(message) => {
                let ghost before = messages@;
                messages.push(Arc::new(message));
                assert(shared_views(messages@) =~= shared_views(before).push(message@));
            },
            Err(e) => {
                proof {
                    lemma_first_failure(results, i + 1);
                }
                return Err(e);
            },
        }
    }
    assert(results.take(results.len() as int) =~= results);
    Ok(messages)
}

/// The entry messages of the entries of a block.
fn entries_of(entries: Vec<SubscribeUpdateEntry>, created_at: Timestamp) -> (r: Vec<
    Arc<MessageEntry>,
>)
    ensures
        shared_views(r@) == full_entries(views(entries@), created_at),
{
    let ghost all = entries@;
    let mut messages: Vec<Arc<MessageEntry>> = Vec::new();
    for entry in iter: entries
        invariant
            iter.seq() == all,
            messages@.len() == iter.index(),
            forall|j: int|
                0 <= j < messages@.len() ==> (*(#[trigger] messages@[j]))@ == full_entry(
                    all[j]@,
                    created_at,
                    size_of(encode::entry_bytes(all[j]@).len()),
                ),
    {
        let mut buf: Vec<u8> = Vec::new();
        encode::entry_encode(&entry, &mut buf);
        assert(buf@ =~= encode::entry_bytes(entry@));
        let len: usize = buf.len();
        messages.push(Arc::new(MessageParserProst::from_entry(entry, created_at, len)));
    }
    assert(shared_views(messages@) =~= full_entries(views(all), created_at));
    messages
}

impl MessageParserProst {
    /// The block message of a block.
    pub fn from_block(
        block_meta: SubscribeUpdateBlockMeta,
        transactions: Vec<SubscribeUpdateTransactionInfo>,
        accounts: Vec<SubscribeUpdateAccountInfo>,
        entries: Vec<SubscribeUpdateEntry>,
        created_at: Timestamp,
        encoded_len: usize,
    ) -> (r: Result<MessageBlock, MessageParseError>)
        ensures
            is_result(
                r,
                full_block(
                    block_meta@,
                    views(transactions@),
                    views(accounts@),
                    views(entries@),
                    created_at,
                    encoded_len as nat,
                ),
            ),
    {
        reveal(full_block);
        let slot: Slot = block_meta.slot;
        let accounts = match accounts_of(accounts, slot, created_at) {
            Ok(accounts) => accounts,
            Err(e) => return Err(e),
        };
        let transactions = match transactions_of(transactions, slot, created_at, encoded_len) {
            Ok(transactions) => transactions,
            Err(e) => return Err(e),
        };
        let entries = entries_of(entries, created_at);
        let mut buf: Vec<u8> = Vec::new();
        encode::block_meta_encode(&block_meta, &mut buf);
        assert(buf@ =~= encode::block_meta_bytes(block_meta@));
        let len: usize = buf.len();
        match Self::from_block_meta(block_meta, created_at, len) {
            Ok(block_meta) => Ok(
                MessageBlock {
                    accounts,
                    transactions,
                    entries,
                    block_meta: Arc::new(block_meta),
                    created_at: MessageBlockCreatedAt::Prost(created_at),
                },
            ),
            Err(e) => Err(e),
        }
    }
}

// ---------------------------------------------------------------------------------------------
// Parsing
// ---------------------------------------------------------------------------------------------

/// What was decoded, or that the bytes are no message.
pub open spec fn decoded<V>(v: Option<V>) -> Result<V, ParseFailure> {
    match v {
        Some(v) => Ok(v),
        None => Err(malformed()),
    }
}

/// The message of the slot update `payload`.
pub open spec fn slot_message(payload: Seq<u8>, created_at: Timestamp, len: nat) -> Result<
    MessageView,
    ParseFailure,
> {
    match geyser::prost_slot(payload) {
        None => Err(malformed()),
        Some(m) => match full_slot(m, created_at, len) {
            Ok(m) => Ok(MessageView::Slot(m)),
            Err(e) => Err(e),
        },
    }
}

/// The message of the account update that holds the encoded account `info`.
pub open spec fn account_info_message(
    info: Option<Seq<u8>>,
    slot: u64,
    is_startup: bool,
    created_at: Timestamp,
    len: nat,
) -> Result<MessageView, ParseFailure> {
    match info {
        None => Err(ParseFailure::FieldNotDefined("account")),
        Some(info) => match geyser::prost_account_info(info) {
            None => Err(malformed()),
            Some(info) => match full_account(
                info,
                slot,
                is_startup,
                created_at,
                size_of(len + 84),
            ) {
                Ok(m) => Ok(MessageView::Account(m)),
                Err(e) => Err(e),
            },
        },
    }
}

/// The message of the account update `payload`.
pub open spec fn account_message(payload: Seq<u8>, created_at: Timestamp, len: nat) -> Result<
    MessageView,
    ParseFailure,
> {
    match geyser::prost_account(payload) {
        None => Err(malformed()),
        Some((info, slot, is_startup)) => account_info_message(
            info,
            slot,
            is_startup,
            created_at,
            len,
        ),
    }
}

/// The message of the transaction update `payload`.
pub open spec fn transaction_message(payload: Seq<u8>, created_at: Timestamp, len: nat) -> Result<
    MessageView,
    ParseFailure,
> {
    match geyser::prost_transaction(payload) {
        None => Err(malformed()),
        Some((None, _)) => Err(ParseFailure::FieldNotDefined("transaction")),
        Some((Some(info), slot)) => match geyser::prost_transaction_info(info) {
            None => Err(malformed()),
            Some(info) => match full_transaction(info, slot, created_at, len) {
                Ok(m) => Ok(MessageView::Transaction(m)),
                Err(e) => Err(e),
            },
        },
    }
}

/// The message of the entry update `payload`.
pub open spec fn entry_message(payload: Seq<u8>, created_at: Timestamp, len: nat) -> Result<
    MessageView,
    ParseFailure,
> {
    match geyser::prost_entry(payload) {
        None => Err(malformed()),
        Some(m) => Ok(MessageView::Entry(full_entry(m, created_at, len))),
    }
}

/// The message of the block metadata update `payload`.
pub open spec fn block_meta_message(payload: Seq<u8>, created_at: Timestamp, len: nat) -> Result<
    MessageView,
    ParseFailure,
> {
    match geyser::prost_block_meta(payload) {
        None => Err(malformed()),
        Some(m) => match full_block_meta(m, created_at, len) {
            Ok(m) => Ok(MessageView::BlockMeta(m)),
            Err(e) => Err(e),
        },
    }
}

/// The parts of the block update `payload`, decoded: its metadata, its transactions, its accounts and its
/// entries.
#[verifier::opaque]
pub open spec fn block_parts(payload: Seq<u8>) -> Result<
    (BlockMetaView, Seq<TransactionInfoView>, Seq<AccountInfoView>, Seq<EntryView>),
    ParseFailure,
> {
    match geyser::prost_block(payload) {
        None => Err(malformed()),
        Some(block) => {
            let transactions = all_ok(
                block.transactions.map_values(
                    |part: Seq<u8>| decoded(geyser::prost_transaction_info(part)),
                ),
            );
            let accounts = all_ok(
                block.accounts.map_values(
                    |part: Seq<u8>| decoded(geyser::prost_account_info(part)),
                ),
            );
            let entries = all_ok(
                block.entries.map_values(|part: Seq<u8>| decoded(geyser::prost_entry(part))),
            );
            match (transactions, accounts, entries) {
                (Ok(transactions), Ok(accounts), Ok(entries)) => Ok(
                    (block.meta, transactions, accounts, entries),
                ),
                _ => Err(malformed()),
            }
        },
    }
}

/// The message of the block update `payload`.
pub open spec fn block_message(payload: Seq<u8>, created_at: Timestamp, len: nat) -> Result<
    MessageView,
    ParseFailure,
> {
    match block_parts(payload) {
        Err(e) => Err(e),
        Ok((meta, transactions, accounts, entries)) => match full_block(
            meta,
            transactions,
            accounts,
            entries,
            created_at,
            len,
        ) {
            Ok(m) => Ok(MessageView::Block(m)),
            Err(e) => Err(e),
        },
    }
}

/// The message of the update `payload` with the tag.
#[verifier::opaque]
pub open spec fn update_message(
    tag: u32,
    payload: Seq<u8>,
    created_at: Timestamp,
    len: nat,
) -> Result<MessageView, ParseFailure> {
    if tag == 2 {
        account_message(payload, created_at, len)
    } else if tag == 3 {
        slot_message(payload, created_at, len)
    } else if tag == 4 {
        transaction_message(payload, created_at, len)
    } else if tag == 5 {
        block_message(payload, created_at, len)
    } else if tag == 6 {
        Err(ParseFailure::InvalidUpdateMessage("Ping"))
    } else if tag == 7 {
        block_meta_message(payload, created_at, len)
    } else if tag == 8 {
        entry_message(payload, created_at, len)
    } else if tag == 9 {
        Err(ParseFailure::InvalidUpdateMessage("Pong"))
    } else {
        Err(ParseFailure::InvalidUpdateMessage("TransactionStatus"))
    }
}

/// Why an envelope without an update is no message: it may hold an update that is not one of the
/// stream.
pub open spec fn no_update(data: Seq<u8>) -> ParseFailure {
    match richat::richat_envelope(data) {
        Err(e) => ParseFailure::Prost(e),
        Ok(m) => if m.update is Some {
            ParseFailure::InvalidUpdateMessage("Richat")
        } else {
            ParseFailure::FieldNotDefined("update_oneof")
        },
    }
}

/// The tag, the bytes and the time of the update that `data` holds.
pub open spec fn full_envelope(data: Seq<u8>) -> Result<(u32, Seq<u8>, Timestamp), ParseFailure> {
    match geyser::prost_update(data) {
        None => Err(malformed()),
        Some((_, _, None)) => Err(ParseFailure::FieldNotDefined("created_at")),
        Some((_, None, Some(_))) => Err(no_update(data)),
        Some((_, Some((tag, payload)), Some(created_at))) => Ok((tag, payload, created_at)),
    }
}

/// The message that the parser that decodes updates in full makes of `data`.
pub open spec fn prost_message(data: Seq<u8>) -> Result<MessageView, ParseFailure> {
    match full_envelope(data) {
        Err(e) => Err(e),
        Ok((tag, payload, created_at)) => update_message(tag, payload, created_at, data.len()),
    }
}

/// The error for bytes that are no message.
fn malformed_error() -> (r: MessageParseError)
    ensures
        r@ == malformed(),
{
    MessageParseError::Prost(error::create_decode_error(DecodeErrorKind::InvalidMessage))
}

/// The encoded transactions, decoded. Those of transactions that were decoded are read back.
pub fn decode_transactions(parts: &Vec<Vec<u8>>) -> (r: Result<
    Vec<SubscribeUpdateTransactionInfo>,
    MessageParseError,
>)
    ensures
        match all_ok(
            geyser::bytes_each(parts@).map_values(
                |part: Seq<u8>| decoded(geyser::prost_transaction_info(part)),
            ),
        ) {
            Ok(ms) => r is Ok && views(r->Ok_0@) == ms,
            Err(e) => r is Err && r->Err_0@ == e && e == malformed(),
        },
        forall|ms: Seq<TransactionInfoView>|
            geyser::decoded_transactions(ms) && geyser::bytes_each(parts@)
                == #[trigger] geyser::transactions_bytes(ms) ==> r is Ok && views(r->Ok_0@) == ms,
{
    let ghost f = |part: Seq<u8>| decoded(geyser::prost_transaction_info(part));
    let ghost results = geyser::bytes_each(parts@).map_values(f);
    let mut items: Vec<SubscribeUpdateTransactionInfo> = Vec::new();
    let mut i: usize = 0;
    assert(results.take(0) =~= Seq::<Result<TransactionInfoView, ParseFailure>>::empty());
    assert(views(items@) =~= Seq::<TransactionInfoView>::empty());
    while i < parts.len()
        invariant
            i <= parts@.len(),
            f == (|part: Seq<u8>| decoded(geyser::prost_transaction_info(part))),
            results == geyser::bytes_each(parts@).map_values(f),
            all_ok(results.take(i as int)) == Ok::<Seq<TransactionInfoView>, ParseFailure>(
                views(items@),
            ),
            forall|ms: Seq<TransactionInfoView>|
                geyser::decoded_transactions(ms) && geyser::bytes_each(parts@)
                    == #[trigger] geyser::transactions_bytes(ms) ==> views(items@) == ms.take(i as int),
        decreases parts@.len() - i,
    {
        proof {
            assert(results.take(i + 1).drop_last() =~= results.take(i as int));
            assert(results.take(i + 1).last() == f(parts@[i as int]@));
            assert forall|ms: Seq<TransactionInfoView>|
                geyser::decoded_transactions(ms) && geyser::bytes_each(parts@)
                    == #[trigger] geyser::transactions_bytes(ms) implies {
                &&& ms.take(i + 1) == ms.take(i as int).push(ms[i as int])
                &&& parts@[i as int]@ == encode::transaction_info_bytes(ms[i as int])
            } by {
                assert(geyser::bytes_each(parts@)[i as int] == geyser::transactions_bytes(ms)[i as int]);
                assert(ms.take(i + 1) =~= ms.take(i as int).push(ms[i as int]));
            }
        }
        match geyser::decode_transaction_info(parts[i].as_slice()) {
            Ok(item) => {
                let ghost before = items@;
                items.push(item);
                assert(views(items@) =~= views(before).push(item@));
            },
            Err(_) => {
                proof {
                    lemma_first_failure(results, i + 1);
                }
                return Err(malformed_error());
            },
        }
        i = i + 1;
    }
    assert(results.take(results.len() as int) =~= results);
    assert forall|ms: Seq<TransactionInfoView>|
        geyser::decoded_transactions(ms) && geyser::bytes_each(parts@)
            == #[trigger] geyser::transactions_bytes(ms) implies views(items@) == ms by {
        assert(ms.len() == geyser::transactions_bytes(ms).len());
        assert(ms.take(ms.len() as int) =~= ms);
    }
    Ok(items)
}

/// The encoded accounts, decoded.
pub(crate) fn decode_accounts(parts: &Vec<Vec<u8>>) -> (r: Result<
    Vec<SubscribeUpdateAccountInfo>,
    MessageParseError,
>)
    ensures
        match all_ok(
            geyser::bytes_each(parts@).map_values(
                |part: Seq<u8>| decoded(geyser::prost_account_info(part)),
            ),
        ) {
            Ok(ms) => r is Ok && views(r->Ok_0@) == ms,
            Err(e) => r is Err && r->Err_0@ == e && e == malformed(),
        },
        forall|ms: Seq<AccountInfoView>|
            geyser::bytes_each(parts@) == #[trigger] geyser::accounts_bytes(
                ms,
            ) ==> r is Ok && views(r->Ok_0@) == ms,
{
    let ghost f = |part: Seq<u8>| decoded(geyser::prost_account_info(part));
    let ghost results = geyser::bytes_each(parts@).map_values(f);
    let mut items: Vec<SubscribeUpdateAccountInfo> = Vec::new();
    let mut i: usize = 0;
    assert(results.take(0) =~= Seq::<Result<AccountInfoView, ParseFailure>>::empty());
    assert(views(items@) =~= Seq::<AccountInfoView>::empty());
    while i < parts.len()
        invariant
            i <= parts@.len(),
            f == (|part: Seq<u8>| decoded(geyser::prost_account_info(part))),
            results == geyser::bytes_each(parts@).map_values(f),
            all_ok(results.take(i as int)) == Ok::<Seq<AccountInfoView>, ParseFailure>(
                views(items@),
            ),
            forall|ms: Seq<AccountInfoView>|
                geyser::bytes_each(parts@)
                    == #[trigger] geyser::accounts_bytes(ms) ==> views(items@) == ms.take(i as int),
        decreases parts@.len() - i,
    {
        proof {
            assert(results.take(i + 1).drop_last() =~= results.take(i as int));
            assert(results.take(i + 1).last() == f(parts@[i as int]@));
            assert forall|ms: Seq<AccountInfoView>|
                geyser::bytes_each(parts@)
                    == #[trigger] geyser::accounts_bytes(ms) implies {
                &&& ms.take(i + 1) == ms.take(i as int).push(ms[i as int])
                &&& parts@[i as int]@ == encode::account_info_bytes(ms[i as int])
            } by {
                assert(geyser::bytes_each(parts@)[i as int] == geyser::accounts_bytes(ms)[i as int]);
                assert(ms.take(i + 1) =~= ms.take(i as int).push(ms[i as int]));
            }
        }
        match geyser::decode_account_info(parts[i].as_slice()) {
            Ok(item) => {
                let ghost before = items@;
                items.push(item);
                assert(views(items@) =~= views(before).push(item@));
            },
            Err(_) => {
                proof {
                    lemma_first_failure(results, i + 1);
                }
                return Err(malformed_error());
            },
        }
        i = i + 1;
    }
    assert(results.take(results.len() as int) =~= results);
    assert forall|ms: Seq<AccountInfoView>|
        geyser::bytes_each(parts@) == #[trigger] geyser::accounts_bytes(
            ms,
        ) implies views(items@) == ms by {
        assert(ms.len() == geyser::accounts_bytes(ms).len());
        assert(ms.take(ms.len() as int) =~= ms);
    }
    Ok(items)
}

/// The encoded entries, decoded.
pub(crate) fn decode_entries(parts: &Vec<Vec<u8>>) -> (r: Result<
    Vec<SubscribeUpdateEntry>,
    MessageParseError,
>)
    ensures
        match all_ok(
            geyser::bytes_each(parts@).map_values(
                |part: Seq<u8>| decoded(geyser::prost_entry(part)),
            ),
        ) {
            Ok(ms) => r is Ok && views(r->Ok_0@) == ms,
            Err(e) => r is Err && r->Err_0@ == e && e == malformed(),
        },
        forall|ms: Seq<EntryView>|
            geyser::bytes_each(parts@) == #[trigger] geyser::entries_bytes(
                ms,
            ) ==> r is Ok && views(r->Ok_0@) == ms,
{
    let ghost f = |part: Seq<u8>| decoded(geyser::prost_entry(part));
    let ghost results = geyser::bytes_each(parts@).map_values(f);
    let mut items: Vec<SubscribeUpdateEntry> = Vec::new();
    let mut i: usize = 0;
    assert(results.take(0) =~= Seq::<Result<EntryView, ParseFailure>>::empty());
    assert(views(items@) =~= Seq::<EntryView>::empty());
    while i < parts.len()
        invariant
            i <= parts@.len(),
            f == (|part: Seq<u8>| decoded(geyser::prost_entry(part))),
            results == geyser::bytes_each(parts@).map_values(f),
            all_ok(results.take(i as int)) == Ok::<Seq<EntryView>, ParseFailure>(
                views(items@),
            ),
            forall|ms: Seq<EntryView>|
                geyser::bytes_each(parts@)
                    == #[trigger] geyser::entries_bytes(ms) ==> views(items@) == ms.take(i as int),
        decreases parts@.len() - i,
    {
        proof {
            assert(results.take(i + 1).drop_last() =~= results.take(i as int));
            assert(results.take(i + 1).last() == f(parts@[i as int]@));
            assert forall|ms: Seq<EntryView>|
                geyser::bytes_each(parts@)
                    == #[trigger] geyser::entries_bytes(ms) implies {
                &&& ms.take(i + 1) == ms.take(i as int).push(ms[i as int])
                &&& parts@[i as int]@ == encode::entry_bytes(ms[i as int])
            } by {
                assert(geyser::bytes_each(parts@)[i as int] == geyser::entries_bytes(ms)[i as int]);
                assert(ms.take(i + 1) =~= ms.take(i as int).push(ms[i as int]));
            }
        }
        match geyser::decode_entry(parts[i].as_slice()) {
            Ok(item) => {
                let ghost before = items@;
                items.push(item);
                assert(views(items@) =~= views(before).push(item@));
            },
            Err(_) => {
                proof {
                    lemma_first_failure(results, i + 1);
                }
                return Err(malformed_error());
            },
        }
        i = i + 1;
    }
    assert(results.take(results.len() as int) =~= results);
    assert forall|ms: Seq<EntryView>|
        geyser::bytes_each(parts@) == #[trigger] geyser::entries_bytes(
            ms,
        ) implies views(items@) == ms by {
        assert(ms.len() == geyser::entries_bytes(ms).len());
        assert(ms.take(ms.len() as int) =~= ms);
    }
    Ok(items)
}

/// The tag and the payload of a length-delimited field that is all of `field`.
pub(crate) fn split_field(field: &[u8]) -> (r: (u32, Vec<u8>))
    requires
        exists|tag: u32, payload: Seq<u8>|
            2 <= tag <= 10 && field@ == #[trigger] wire::bytes_field(tag, payload),
    ensures
        2 <= r.0 <= 10,
        field@ == wire::bytes_field(r.0, r.1@),
        forall|tag: u32, payload: Seq<u8>|
            2 <= tag <= 10 && field@ == #[trigger] wire::bytes_field(tag, payload) ==> r.0 == tag
                && r.1@ == payload,
{
    let total: usize = field.len();
    proof {
        assert forall|tag: u32, payload: Seq<u8>|
            2 <= tag <= 10 && field@ == #[trigger] wire::bytes_field(tag, payload) implies {
            &&& wire::key(field@) == Some(
                (
                    tag,
                    WireType::LengthDelimited,
                    wire::key_bytes(tag, WireType::LengthDelimited).len(),
                ),
            )
            &&& field@.skip(wire::key_bytes(tag, WireType::LengthDelimited).len() as int)
                == wire::varint_bytes(payload.len()) + payload
            &&& wire::varint(wire::varint_bytes(payload.len()) + payload) == Some(
                (payload.len() as u64, wire::varint_bytes(payload.len()).len()),
            )
            &&& (wire::varint_bytes(payload.len()) + payload).skip(
                wire::varint_bytes(payload.len()).len() as int,
            ) == payload
        } by {
            let k = wire::key_bytes(tag, WireType::LengthDelimited);
            let n = wire::varint_bytes(payload.len());
            assert(field@ =~= k + (n + payload));
            assert(payload.len() <= total);
            wire::lemma_key_round_trip(tag, WireType::LengthDelimited, n + payload);
            wire::lemma_varint_round_trip(payload.len() as u64, payload);
            assert(field@.skip(k.len() as int) =~= n + payload);
            assert((n + payload).skip(n.len() as int) =~= payload);
        }
    }
    let mut buf: &[u8] = field;
    let key = codec::decode_key(&mut buf);
    let len = codec::decode_varint(&mut buf);
    match (key, len) {
        (Ok((tag, _)), Ok(_)) => (tag, vstd::slice::slice_to_vec(buf)),
        _ => (2, Vec::new()),
    }
}

/// Whether the keys and the error of a transaction, where `r` is one, can be read from its encoded parts.
pub open spec fn legible(r: Result<Message, MessageParseError>) -> bool {
    r is Ok && r->Ok_0@ is Transaction ==> geyser::legible(r->Ok_0@->Transaction_0->Prost_transaction)
}

impl MessageParserProst {
    fn parse_slot(payload: &[u8], created_at: Timestamp, encoded_len: usize) -> (r: Result<
        Message,
        MessageParseError,
    >)
        ensures
            is_result(r, slot_message(payload@, created_at, encoded_len as nat)),
            forall|m: MessageView| #[trigger]
                again::came_as(m, 3, payload@, created_at) ==> r is Ok && round_trip::same_message(
                    m,
                    r->Ok_0@,
                ),
            forall|m: SlotView|
                payload@ == #[trigger] encode::slot_bytes(m) ==> geyser::prost_slot(payload@)
                    == Some(m),
    {
        proof {
            let len = encoded_len as nat;
            assert forall|m: MessageView| #[trigger]
                again::came_as(m, 3, payload@, created_at) implies {
                &&& payload@ == encode::slot_bytes(again::slot_of(m))
                &&& slot_view_message(again::slot_of(m), created_at, len) matches Ok(m1)
                    && round_trip::same_message(m, m1)
            } by {
                again::lemma_slot(m, payload@, created_at, len);
            }
        }
        match geyser::decode_slot(payload) {
            Ok(m) => match Self::from_slot(m, created_at, encoded_len) {
                Ok(m) => Ok(Message::Slot(m)),
                Err(e) => Err(e),
            },
            Err(_) => Err(malformed_error()),
        }
    }

    fn parse_account(payload: &[u8], created_at: Timestamp, encoded_len: usize) -> (r: Result<
        Message,
        MessageParseError,
    >)
        ensures
            is_result(r, account_message(payload@, created_at, encoded_len as nat)),
            forall|m: MessageView| #[trigger]
                again::came_as(m, 2, payload@, created_at) ==> r is Ok && round_trip::same_message(
                    m,
                    r->Ok_0@,
                ),
            forall|m: AccountView|
                payload@ == #[trigger] encode::account_bytes(m) && m.account is Some
                    ==> account_message(payload@, created_at, encoded_len as nat)
                    == account_view_message(m, created_at, encoded_len as nat),
    {
        proof {
            let len = encoded_len as nat;
            assert forall|m: MessageView| #[trigger]
                again::came_as(m, 2, payload@, created_at) implies {
                &&& payload@ == encode::account_bytes(again::account_of(m))
                &&& account_view_message(again::account_of(m), created_at, len) matches Ok(m1)
                    && round_trip::same_message(m, m1)
            } by {
                again::lemma_account(m, payload@, created_at, len);
            }
        }
        let (info, slot, is_startup) = match geyser::decode_account(payload) {
            Ok(parts) => parts,
            Err(_) => return Err(malformed_error()),
        };
        let info = match info {
            Some(info) => info,
            None => return Err(MessageParseError::FieldNotDefined("account")),
        };
        match geyser::decode_account_info(info.as_slice()) {
            Ok(info) => {
                let size: usize = sum(encoded_len, PUBKEY_BYTES + PUBKEY_BYTES + 20);
                match Self::from_account(info, slot, is_startup, created_at, size) {
                    Ok(m) => Ok(Message::Account(m)),
                    Err(e) => Err(e),
                }
            },
            Err(_) => Err(malformed_error()),
        }
    }

    fn parse_transaction(payload: &[u8], created_at: Timestamp, encoded_len: usize) -> (r: Result<
        Message,
        MessageParseError,
    >)
        ensures
            is_result(r, transaction_message(payload@, created_at, encoded_len as nat)),
            forall|m: MessageView| #[trigger]
                again::came_as(m, 4, payload@, created_at) ==> r is Ok && round_trip::same_message(
                    m,
                    r->Ok_0@,
                ),
            legible(r),
    {
        proof {
            let len = encoded_len as nat;
            assert forall|m: MessageView| #[trigger]
                again::came_as(m, 4, payload@, created_at) implies {
                let info = m->Transaction_0->Prost_transaction;
                let bytes = encode::transaction_info_bytes(info);
                let slot = m->Transaction_0.slot();
                &&& geyser::decoded_transaction(info)
                &&& geyser::encoded_transaction(bytes)
                &&& payload@ == encode::transaction_bytes(bytes, slot)
                &&& again::transaction_view_message(info, slot, created_at, len) matches Ok(m1)
                    && round_trip::same_message(m, m1)
            } by {
                again::lemma_transaction(m, payload@, created_at, len);
            }
        }
        let (info, slot) = match geyser::decode_transaction(payload) {
            Ok(parts) => parts,
            Err(_) => return Err(malformed_error()),
        };
        let info = match info {
            Some(info) => info,
            None => return Err(MessageParseError::FieldNotDefined("transaction")),
        };
        match geyser::decode_transaction_info(info.as_slice()) {
            Ok(info) => match Self::from_transaction(info, slot, created_at, encoded_len) {
                Ok(m) => Ok(Message::Transaction(m)),
                Err(e) => Err(e),
            },
            Err(_) => Err(malformed_error()),
        }
    }

    fn parse_entry(payload: &[u8], created_at: Timestamp, encoded_len: usize) -> (r: Result<
        Message,
        MessageParseError,
    >)
        ensures
            is_result(r, entry_message(payload@, created_at, encoded_len as nat)),
            forall|m: MessageView| #[trigger]
                again::came_as(m, 8, payload@, created_at) ==> r is Ok && round_trip::same_message(
                    m,
                    r->Ok_0@,
                ),
            forall|m: EntryView|
                payload@ == #[trigger] encode::entry_bytes(m) ==> geyser::prost_entry(payload@)
                    == Some(m),
    {
        proof {
            let len = encoded_len as nat;
            assert forall|m: MessageView| #[trigger]
                again::came_as(m, 8, payload@, created_at) implies {
                let entry = m->Entry_0->Prost_entry;
                &&& payload@ == encode::entry_bytes(entry)
                &&& round_trip::same_message(
                    m,
                    MessageView::Entry(full_entry(entry, created_at, len)),
                )
            } by {
                again::lemma_entry(m, payload@, created_at, len);
            }
        }
        match geyser::decode_entry(payload) {
            Ok(m) => Ok(Message::Entry(Self::from_entry(m, created_at, encoded_len))),
            Err(_) => Err(malformed_error()),
        }
    }

    fn parse_block_meta(payload: &[u8], created_at: Timestamp, encoded_len: usize) -> (r: Result<
        Message,
        MessageParseError,
    >)
        ensures
            is_result(r, block_meta_message(payload@, created_at, encoded_len as nat)),
            forall|m: MessageView| #[trigger]
                again::came_as(m, 7, payload@, created_at) ==> r is Ok && round_trip::same_message(
                    m,
                    r->Ok_0@,
                ),
    {
        proof {
            let len = encoded_len as nat;
            assert forall|m: MessageView| #[trigger]
                again::came_as(m, 7, payload@, created_at) implies {
                let meta = m->BlockMeta_0.block_meta();
                &&& geyser::decoded_block_meta(meta)
                &&& payload@ == encode::block_meta_bytes(meta)
                &&& full_block_meta(meta, created_at, len) matches Ok(m1)
                    && round_trip::same_message(m, MessageView::BlockMeta(m1))
            } by {
                again::lemma_block_meta(m, payload@, created_at, len);
            }
        }
        match geyser::decode_block_meta(payload) {
            Ok(m) => match Self::from_block_meta(m, created_at, encoded_len) {
                Ok(m) => Ok(Message::BlockMeta(m)),
                Err(e) => Err(e),
            },
            Err(_) => Err(malformed_error()),
        }
    }

    /// The parts of a block update, decoded. A block of parts that were decoded is read back.
    #[verifier::rlimit(50)]
    #[verifier::spinoff_prover]
    fn parse_parts(payload: &[u8]) -> (r: Result<
        (
            SubscribeUpdateBlockMeta,
            Vec<SubscribeUpdateTransactionInfo>,
            Vec<SubscribeUpdateAccountInfo>,
            Vec<SubscribeUpdateEntry>,
        ),
        MessageParseError,
    >)
        ensures
            match block_parts(payload@) {
                Ok((meta, transactions, accounts, entries)) => {
                    &&& r is Ok
                    &&& r->Ok_0.0@ == meta
                    &&& views(r->Ok_0.1@) == transactions
                    &&& views(r->Ok_0.2@) == accounts
                    &&& views(r->Ok_0.3@) == entries
                },
                Err(e) => r is Err && r->Err_0@ == e,
            },
            forall|b: BlockParts|
                again::decoded_parts(b) && payload@ == #[trigger] again::parts_bytes(b) ==> {
                    &&& r is Ok
                    &&& r->Ok_0.0@ == b.meta
                    &&& views(r->Ok_0.1@) == b.transactions
                    &&& views(r->Ok_0.2@) == b.accounts
                    &&& views(r->Ok_0.3@) == b.entries
                },
    {
        reveal(block_parts);
        proof {
            assert forall|b: BlockParts|
                again::decoded_parts(b) && payload@ == #[trigger] again::parts_bytes(b) implies {
                &&& geyser::encoded_block(again::block_of(b))
                &&& payload@ == geyser::block_view_bytes(again::block_of(b))
            } by {
                again::lemma_block_of(b);
            }
        }
        let block = match geyser::decode_block(payload) {
            Ok(block) => block,
            Err(_) => return Err(malformed_error()),
        };
        let transactions = match decode_transactions(&block.transactions) {
            Ok(transactions) => transactions,
            Err(e) => return Err(e),
        };
        let accounts = match decode_accounts(&block.accounts) {
            Ok(accounts) => accounts,
            Err(e) => return Err(e),
        };
        let entries = match decode_entries(&block.entries) {
            Ok(entries) => entries,
            Err(e) => return Err(e),
        };
        Ok((block.meta, transactions, accounts, entries))
    }

    #[verifier::rlimit(50)]
    #[verifier::spinoff_prover]
    fn parse_block(payload: &[u8], created_at: Timestamp, encoded_len: usize) -> (r: Result<
        Message,
        MessageParseError,
    >)
        ensures
            is_result(r, block_message(payload@, created_at, encoded_len as nat)),
            forall|b: BlockParts|
                again::decoded_parts(b) && payload@ == #[trigger] again::parts_bytes(b) ==> is_result(
                    r,
                    again::parts_message(b, created_at, encoded_len as nat),
                ),
            forall|m: MessageView| #[trigger]
                again::came_as(m, 5, payload@, created_at) ==> r is Ok && round_trip::same_message(
                    m,
                    r->Ok_0@,
                ),
    {
        let total: usize = payload.len();
        proof {
            let len = encoded_len as nat;
            assert forall|m: MessageView| #[trigger]
                again::came_as(m, 5, payload@, created_at) implies {
                let b = again::parts_of(m->Block_0);
                &&& again::decoded_parts(b)
                &&& payload@ == again::parts_bytes(b)
                &&& full_block(
                    b.meta,
                    b.transactions,
                    b.accounts,
                    b.entries,
                    created_at,
                    len,
                ) matches Ok(m1) && round_trip::same_message(m, MessageView::Block(m1))
            } by {
                assert(payload@.len() <= total);
                again::lemma_block(m, payload@, created_at, len);
            }
        }
        let (meta, transactions, accounts, entries) = match Self::parse_parts(payload) {
            Ok(parts) => parts,
            Err(e) => return Err(e),
        };
        match Self::from_block(meta, transactions, accounts, entries, created_at, encoded_len) {
            Ok(m) => Ok(Message::Block(m)),
            Err(e) => Err(e),
        }
    }

    #[verifier::rlimit(50)]
    #[verifier::spinoff_prover]
    fn parse_update(tag: u32, payload: &[u8], created_at: Timestamp, encoded_len: usize) -> (r: Result<
        Message,
        MessageParseError,
    >)
        requires
            2 <= tag <= 10,
        ensures
            is_result(r, update_message(tag, payload@, created_at, encoded_len as nat)),
            forall|m: MessageView| #[trigger]
                again::came_as(m, tag, payload@, created_at) ==> r is Ok
                    && round_trip::same_message(m, r->Ok_0@),
            forall|m: SlotView|
                tag == 3 && payload@ == #[trigger] encode::slot_bytes(m) ==> is_result(
                    r,
                    slot_view_message(m, created_at, encoded_len as nat),
                ),
            forall|m: AccountView|
                tag == 2 && payload@ == #[trigger] encode::account_bytes(m) && m.account is Some
                    ==> is_result(r, account_view_message(m, created_at, encoded_len as nat)),
            forall|m: EntryView|
                tag == 8 && payload@ == #[trigger] encode::entry_bytes(m) ==> is_result(
                    r,
                    Ok(MessageView::Entry(full_entry(m, created_at, encoded_len as nat))),
                ),
            forall|b: BlockParts|
                tag == 5 && again::decoded_parts(b) && payload@ == #[trigger] again::parts_bytes(b)
                    ==> is_result(r, again::parts_message(b, created_at, encoded_len as nat)),
            legible(r),
    {
        reveal(update_message);
        match tag {
            2 => Self::parse_account(payload, created_at, encoded_len),
            3 => Self::parse_slot(payload, created_at, encoded_len),
            4 => Self::parse_transaction(payload, created_at, encoded_len),
            5 => Self::parse_block(payload, created_at, encoded_len),
            6 => Err(MessageParseError::InvalidUpdateMessage("Ping")),
            7 => Self::parse_block_meta(payload, created_at, encoded_len),
            8 => Self::parse_entry(payload, created_at, encoded_len),
            9 => Err(MessageParseError::InvalidUpdateMessage("Pong")),
            _ => Err(MessageParseError::InvalidUpdateMessage("TransactionStatus")),
        }
    }

    /// The tag, the bytes and the time of the update in its envelope. An encoded update is read back; of
    /// an update that is none of the stream, that is said.
    #[verifier::rlimit(50)]
    #[verifier::spinoff_prover]
    fn parse_envelope(data: &[u8]) -> (r: Result<(u32, Vec<u8>, Timestamp), MessageParseError>)
        ensures
            match full_envelope(data@) {
                Ok((tag, payload, created_at)) => {
                    &&& r is Ok
                    &&& r->Ok_0.0 == tag
                    &&& r->Ok_0.1@ == payload
                    &&& r->Ok_0.2 == created_at
                },
                Err(e) => r is Err && r->Err_0@ == e,
            },
            r is Ok ==> 2 <= r->Ok_0.0 <= 10,
            forall|filters: Seq<Seq<char>>, tag: u32, payload: Seq<u8>, ts: Timestamp|
                geyser::encoded_update(tag, payload) && data@ == #[trigger] encode::envelope_bytes(
                    filters,
                    tag,
                    payload,
                    ts,
                ) ==> {
                    &&& r is Ok
                    &&& r->Ok_0.0 == tag
                    &&& r->Ok_0.1@ == payload
                    &&& r->Ok_0.2 == ts
                },
            forall|tag: u32, payload: Seq<u8>, ts: Timestamp|
                100 <= tag <= 105 && richat::richat_update(tag, payload) is Some && data@
                    == #[trigger] encode::other_envelope(tag, payload, ts) ==> r is Err
                    && r->Err_0@ == ParseFailure::InvalidUpdateMessage("Richat"),
            forall|m: &ProtobufMessage, ts: Timestamp|
                m.tag() >= 100 && told::decodable(m) && data@ == #[trigger] m.encoded(ts) ==> r is Err
                    && r->Err_0@ == ParseFailure::InvalidUpdateMessage("Richat"),
    {
        let encoded_len: usize = data.len();
        proof {
            assert forall|tag: u32, payload: Seq<u8>, ts: Timestamp|
                100 <= tag <= 105 && richat::richat_update(tag, payload) is Some && data@
                    == #[trigger] encode::other_envelope(tag, payload, ts) implies no_update(data@)
                == ParseFailure::InvalidUpdateMessage("Richat") by {
                assert(payload.len() <= encoded_len);
                round_trip::law_other_update_is_skipped(tag, payload, ts);
            }
            assert forall|tag: u32, payload: Seq<u8>|
                1 <= tag <= 10 implies (#[trigger] wire::bytes_field(tag, payload)).len() > 0 by {
                wire::lemma_key_round_trip(tag, WireType::LengthDelimited, Seq::empty());
            }
        }
        proof {
            assert forall|m: &ProtobufMessage, ts: Timestamp|
                m.tag() >= 100 && data@ == #[trigger] m.encoded(ts) implies data@
                == encode::other_envelope(m.tag(), m.payload(), ts) by {
                round_trip::law_update_bytes(m.tag(), m.payload(), ts);
            }
        }
        let (_, update, created_at) = match geyser::decode_update(data) {
            Ok(parts) => parts,
            Err(_) => return Err(malformed_error()),
        };
        let created_at = match created_at {
            Some(created_at) => created_at,
            None => return Err(MessageParseError::FieldNotDefined("created_at")),
        };
        if update.len() == 0 {
            let envelope = SubscribeUpdateRichat::decode(data);
            proof {
                assert forall|m: &ProtobufMessage, ts: Timestamp|
                    m.tag() >= 100 && told::decodable(m) && data@ == #[trigger] m.encoded(
                        ts,
                    ) implies no_update(data@) == ParseFailure::InvalidUpdateMessage("Richat") by {
                    round_trip::law_update_bytes(m.tag(), m.payload(), ts);
                    assert(m.payload().len() <= encoded_len);
                    round_trip::lemma_other_fields(m.tag(), m.payload(), ts);
                    if let ProtobufMessage::DeshredTransaction { slot, transaction } = m {
                        assert(m.payload() == plugin::deshred_bytes(**transaction, *slot));
                        let one = richat::one_part(
                            100,
                            plugin::deshred_bytes(**transaction, *slot),
                            Some(ts),
                        );
                    }
                    told::law_told_round_trip(m, ts);
                }
            }
            return Err(
                match envelope {
                    Err(e) => MessageParseError::Prost(e),
                    Ok(richat) => if richat.update.is_some() {
                        MessageParseError::InvalidUpdateMessage("Richat")
                    } else {
                        MessageParseError::FieldNotDefined("update_oneof")
                    },
                },
            );
        }
        let (tag, payload) = split_field(update.as_slice());
        Ok((tag, payload, created_at))
    }

    /// Makes a message of an update. A message that was made, encoded and parsed again, says what it said
    /// before. An encoded slot, account or entry update gives the message of what was encoded, and so does
    /// a block of parts that were decoded. Of an update that is none of the stream, no message is made.
    #[verifier::rlimit(50)]
    #[verifier::spinoff_prover]
    pub fn parse(data: &[u8]) -> (r: Result<Message, MessageParseError>)
        ensures
            is_result(r, prost_message(data@)),
            forall|m: MessageView, filters: Seq<Seq<char>>|
                again::parsed(m) && data@ == #[trigger] round_trip::message_bytes(m, filters)
                    ==> r is Ok && round_trip::same_message(m, r->Ok_0@),
            forall|filters: Seq<Seq<char>>, m: SlotView, ts: Timestamp|
                data@ == #[trigger] encode::envelope_bytes(filters, 3, encode::slot_bytes(m), ts)
                    ==> is_result(r, slot_view_message(m, ts, data@.len())),
            forall|filters: Seq<Seq<char>>, m: AccountView, ts: Timestamp|
                data@ == #[trigger] encode::envelope_bytes(filters, 2, encode::account_bytes(m), ts)
                    && m.account is Some ==> is_result(r, account_view_message(m, ts, data@.len())),
            forall|filters: Seq<Seq<char>>, m: EntryView, ts: Timestamp|
                data@ == #[trigger] encode::envelope_bytes(filters, 8, encode::entry_bytes(m), ts)
                    ==> is_result(
                    r,
                    Ok(MessageView::Entry(full_entry(m, ts, data@.len()))),
                ),
            forall|filters: Seq<Seq<char>>, b: BlockParts, ts: Timestamp|
                again::decoded_parts(b) && data@ == #[trigger] encode::envelope_bytes(
                    filters,
                    5,
                    again::parts_bytes(b),
                    ts,
                ) ==> is_result(r, again::parts_message(b, ts, data@.len())),
            forall|tag: u32, payload: Seq<u8>, ts: Timestamp|
                100 <= tag <= 105 && richat::richat_update(tag, payload) is Some && data@
                    == #[trigger] encode::other_envelope(tag, payload, ts) ==> r is Err
                    && r->Err_0@ == ParseFailure::InvalidUpdateMessage("Richat"),
            forall|m: &ProtobufMessage, ts: Timestamp|
                m.tag() >= 100 && told::decodable(m) && data@ == #[trigger] m.encoded(ts) ==> r is Err
                    && r->Err_0@ == ParseFailure::InvalidUpdateMessage("Richat"),
            legible(r),
    {
        let encoded_len: usize = data.len();
        proof {
            assert forall|m: MessageView, filters: Seq<Seq<char>>|
                again::parsed(m) && data@ == #[trigger] round_trip::message_bytes(
                    m,
                    filters,
                ) implies {
                let (tag, payload, ts) = round_trip::message_parts(m);
                &&& again::came_as(m, tag, payload, ts)
                &&& geyser::encoded_update(tag, payload)
                &&& 2 <= tag <= 10
                &&& data@ == encode::envelope_bytes(filters, tag, payload, ts)
            } by {
                let (tag, payload, ts) = round_trip::message_parts(m);
                assert(payload.len() <= encoded_len);
                again::lemma_encoded(m, tag, payload, ts);
            }
            assert forall|filters: Seq<Seq<char>>, b: BlockParts, ts: Timestamp|
                again::decoded_parts(b) && data@ == #[trigger] encode::envelope_bytes(
                    filters,
                    5,
                    again::parts_bytes(b),
                    ts,
                ) implies geyser::encoded_update(5, again::parts_bytes(b)) by {
                again::lemma_block_of(b);
                assert(again::parts_bytes(b) == geyser::block_view_bytes(again::block_of(b)));
            }
        }
        match Self::parse_envelope(data) {
            Ok((tag, payload, created_at)) => {
                Self::parse_update(tag, payload.as_slice(), created_at, encoded_len)
            },
            Err(e) => Err(e),
        }
    }
}

/// The message of a slot update.
pub open spec fn slot_view_message(m: SlotView, created_at: Timestamp, len: nat) -> Result<
    MessageView,
    ParseFailure,
> {
    match full_slot(m, created_at, len) {
        Ok(m) => Ok(MessageView::Slot(m)),
        Err(e) => Err(e),
    }
}

/// The message of an account update that holds an account.
pub open spec fn account_view_message(m: AccountView, created_at: Timestamp, len: nat) -> Result<
    MessageView,
    ParseFailure,
> {
    match full_account(
        m.account->Some_0,
        m.slot,
        m.is_startup,
        created_at,
        size_of(len + 84),
    ) {
        Ok(m) => Ok(MessageView::Account(m)),
        Err(e) => Err(e),
    }
}

impl Message {
    /// Makes a message of an update. The places of a message that keeps the bytes of the update lie
    /// within these. A message of the parser that decodes updates in full, encoded and parsed again, says
    /// what it said before.
    pub fn parse(data: Vec<u8>, parser: MessageParserEncoding) -> (r: Result<
        Message,
        MessageParseError,
    >)
        ensures
            is_result(
                r,
                match parser {
                    MessageParserEncoding::Limited => message::limited_message(data@),
                    MessageParserEncoding::Prost => prost_message(data@),
                },
            ),
            r is Ok ==> round_trip::within_buffer(r->Ok_0@),
            parser == MessageParserEncoding::Prost && r is Ok ==> again::parsed(r->Ok_0@),
            parser == MessageParserEncoding::Prost ==> legible(r),
            parser == MessageParserEncoding::Prost ==> forall|m: MessageView, filters: Seq<Seq<char>>|
                again::parsed(m) && data@ == #[trigger] round_trip::message_bytes(m, filters)
                    ==> r is Ok && round_trip::same_message(m, r->Ok_0@),
            parser == MessageParserEncoding::Prost ==> forall|
                filters: Seq<Seq<char>>,
                b: BlockParts,
                ts: Timestamp,
            |
                again::decoded_parts(b) && data@ == #[trigger] encode::envelope_bytes(
                    filters,
                    5,
                    again::parts_bytes(b),
                    ts,
                ) ==> is_result(r, again::parts_message(b, ts, data@.len())),
    {
        proof {
            round_trip::law_limited_within_buffer(data@);
            again::law_full_within_buffer(data@);
            again::lemma_parsed(data@);
        }
        match parser {
            MessageParserEncoding::Limited => MessageParserLimited::parse(data),
            MessageParserEncoding::Prost => MessageParserProst::parse(data.as_slice()),
        }
    }
}

} // verus!
