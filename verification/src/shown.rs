//! What is counted and shown of the updates of a stream.
use vstd::prelude::*;

use crate::block::RewardView;
use crate::codec::Timestamp;
use crate::geyser;
use crate::geyser::{
    AccountInfoView, BlockMetaView, BlockView, EntryView, SlotView, TransactionInfoView,
    TransactionStatusView,
};
use crate::message::ParseFailure;
use crate::parser;
use crate::pretty;
use crate::pretty::{
    PrettyAccount, PrettyBlock, PrettyBlockMeta, PrettyEntry, PrettyRichat, PrettySlot,
    PrettyTransaction, PrettyTransactionStatus, StreamError,
};
use crate::readings::{Readings, TransactionView};
use crate::richat::RichatView;
use crate::said;
use crate::stats;
use crate::stats::{Count, Line, PrettyUpdate, StreamAction, StreamStats};
use crate::stream::{StreamView, UpdateView};
use crate::text;

verus! {

// ---------------------------------------------------------------------------------------------
// Counting
// ---------------------------------------------------------------------------------------------

/// No two lines are counted at one place, and there is a place for each.
pub proof fn law_lines(a: Line, b: Line)
    ensures
        a.place() == b.place() ==> a == b,
        0 <= a.place() < stats::LINES,
{
}

/// Whether an update of the kind is counted in the line.
pub open spec fn belongs(m: StreamView, line: Line) -> bool {
    match m {
        StreamView::Geyser { update: Some(u), .. } => match line {
            Line::Accounts => u is Account,
            Line::Slots => u is Slot,
            Line::Transactions => u is Transaction,
            Line::TransactionsStatuses => u is TransactionStatus,
            Line::Entries => u is Entry,
            Line::BlocksMeta => u is BlockMeta,
            Line::Blocks => u is Block,
            Line::PingPong => u is Ping || u is Pong,
            _ => false,
        },
        StreamView::Richat { update: Some(u), .. } => match line {
            Line::DeshredTransactions => u is DeshredTransaction,
            Line::ContactInfo => u is ContactInfo || u is ContactInfoRemoved,
            Line::BlocksFooter => u is BlockFooter,
            Line::UpdateParents => u is EntryUpdateParent || u is DeshredUpdateParent,
            _ => false,
        },
        _ => false,
    }
}

/// The count of one line after another.
pub open spec fn grew(before: Count, after: Count, messages: int, bytes: int) -> bool {
    &&& after.messages == before.messages + messages
    &&& after.bytes == before.bytes + bytes
}

/// An update is counted once, with its length, in the line of its kind and in the total, and in no other
/// line.
pub proof fn law_counted_once(
    before: StreamStats,
    after: StreamStats,
    m: StreamView,
    len: u64,
    held: bool,
    r: Result<StreamAction, StreamError>,
    line: Line,
)
    requires
        stats::counts(before, after, m, len, held, r),
        before.has_room(len),
        before.lines().len() == stats::LINES,
        before.sum().messages == stats::messages_of(before.lines()),
        before.sum().bytes == stats::bytes_of(before.lines()),
    ensures
        after.lines().len() == stats::LINES,
        r matches Ok(StreamAction::Count { line: l, tip: _ }) ==> {
            &&& belongs(m, l)
            &&& grew(before.sum(), after.sum(), 1, len as int)
            &&& grew(
                before.lines()[line.place()],
                after.lines()[line.place()],
                if line == l {
                    1
                } else {
                    0
                },
                if line == l {
                    len as int
                } else {
                    0
                },
            )
        },
        !(r matches Ok(StreamAction::Count { .. })) ==> after == before,
        belongs(m, line) && r is Ok ==> (r->Ok_0 matches StreamAction::Count { line: l, .. } && l
            == line),
{
    lemma_within(before.lines(), line.place());
    if let Ok(Some((l, _))) = stats::line_of(m, held) {
        lemma_within(before.lines(), l.place());
        law_lines(line, l);
    }
}

/// The count of a line is no more than that of all.
proof fn lemma_within(counts: Seq<Count>, i: int)
    requires
        0 <= i < counts.len(),
    ensures
        counts[i].messages <= stats::messages_of(counts),
        counts[i].bytes <= stats::bytes_of(counts),
    decreases counts.len(),
{
    if i < counts.len() - 1 {
        lemma_within(counts.drop_last(), i);
        assert(counts.drop_last()[i] == counts[i]);
    }
}

/// The latest slots change with the status of a slot alone, and just the one with that status.
pub proof fn law_latest(
    before: StreamStats,
    after: StreamStats,
    m: StreamView,
    len: u64,
    held: bool,
    r: Result<StreamAction, StreamError>,
)
    requires
        stats::counts(before, after, m, len, held, r),
    ensures
        ({
            let x = before.latest();
            let y = after.latest();
            match m {
                StreamView::Geyser { update: Some(UpdateView::Slot(s)), .. } => {
                    &&& y.processed == if s.status == 0 {
                        Some(s.slot)
                    } else {
                        x.processed
                    }
                    &&& y.confirmed == if s.status == 1 {
                        Some(s.slot)
                    } else {
                        x.confirmed
                    }
                    &&& y.finalized == if s.status == 2 {
                        Some(s.slot)
                    } else {
                        x.finalized
                    }
                    &&& r is Ok <==> 0 <= s.status <= 6
                    &&& r matches Err(e) ==> e == StreamError::InvalidStatus
                    &&& r matches Ok(StreamAction::Count { line: _, tip }) ==> (tip <==> s.status == 0
                        || s.status == 1 || s.status == 2)
                },
                _ => y == x && (r matches Ok(StreamAction::Count { line: _, tip }) ==> !tip),
            }
        }),
{
}

/// What is no update is not counted. The time matters for what is none of the stream alone.
pub proof fn law_not_counted(
    before: StreamStats,
    after: StreamStats,
    m: StreamView,
    len: u64,
    held: bool,
    r: Result<StreamAction, StreamError>,
)
    requires
        stats::counts(before, after, m, len, held, r),
    ensures
        match m {
            StreamView::Geyser { update: None, .. } => r is Ok && r->Ok_0 is NoUpdate,
            StreamView::Geyser { update: Some(u), .. } => u is Slot || (r is Ok && r->Ok_0 is Count),
            StreamView::Richat { update, created_at } => {
                &&& created_at is None ==> r is Err && r->Err_0 == StreamError::NoCreatedAt
                &&& created_at is Some && !held ==> r is Err && r->Err_0
                    == StreamError::InvalidCreatedAt
                &&& created_at is Some && held ==> r is Ok && (r->Ok_0 is NoUpdate <==> update is None)
                    && (r->Ok_0 is Count <==> update is Some)
            },
        },
{
}

/// An update is counted or shown, never both: where it is shown, nothing changes of what was counted, and
/// where it is counted, nothing is shown.
pub proof fn law_either(
    before: StreamStats,
    after: StreamStats,
    m: StreamView,
    len: u64,
    stats: bool,
    held: bool,
    readings: Readings,
    r: Result<StreamAction, StreamError>,
)
    requires
        stats::handles(before, after, m, len, stats, held, readings, r),
    ensures
        stats ==> stats::counts(before, after, m, len, held, r) && !(r matches Ok(
            StreamAction::Print { .. },
        )),
        !stats ==> after == before && stats::shown(m, held, readings, r) && !(r matches Ok(
            StreamAction::Count { .. },
        )),
{
}

// ---------------------------------------------------------------------------------------------
// Showing
// ---------------------------------------------------------------------------------------------

/// An update is shown with the name of its kind, its time, and the filters that it passed. A ping and a
/// pong are not shown, and what is no update is said to be none. Without a time that the machine can hold
/// nothing is shown.
pub proof fn law_shown(
    m: StreamView,
    held: bool,
    readings: Readings,
    r: Result<StreamAction, StreamError>,
)
    requires
        stats::shown(m, held, readings, r),
    ensures
        ({
            let created = match m {
                StreamView::Geyser { created_at, .. } => created_at,
                StreamView::Richat { created_at, .. } => created_at,
            };
            &&& created is None ==> r is Err && r->Err_0 == StreamError::NoCreatedAt
            &&& created is Some && !held ==> r is Err && r->Err_0 == StreamError::InvalidCreatedAt
            &&& created is Some && held ==> match m {
                StreamView::Geyser { update: None, .. } => r is Ok && r->Ok_0 is NoUpdate,
                StreamView::Richat { update: None, .. } => r is Ok && r->Ok_0 is NoUpdate,
                StreamView::Geyser { update: Some(UpdateView::Ping), .. } => r is Ok && r->Ok_0 is Skip,
                StreamView::Geyser { update: Some(UpdateView::Pong), .. } => r is Ok && r->Ok_0 is Skip,
                StreamView::Geyser { update: Some(u), filters: names, .. } => r is Ok ==> {
                    &&& r->Ok_0 matches StreamAction::Print { kind, created_at, filters, value }
                    &&& Some(created_at) == created
                    &&& filters@.len() == names.len()
                    &&& forall|i: int|
                        0 <= i < names.len() ==> (#[trigger] filters@[i])@ == names[i]
                    &&& kind == match u {
                        UpdateView::Account(_) => "account",
                        UpdateView::Slot(_) => "slot",
                        UpdateView::Transaction { .. } => "transaction",
                        UpdateView::TransactionStatus(_) => "transactionStatus",
                        UpdateView::Entry(_) => "entry",
                        UpdateView::BlockMeta(_) => "blockmeta",
                        _ => "block",
                    }
                    &&& match (u, value) {
                        (
                            UpdateView::Account(a),
                            PrettyUpdate::Account { account, is_startup, slot },
                        ) => {
                            &&& a.account matches Some(info) && account.shows(info)
                            &&& is_startup == a.is_startup
                            &&& slot == a.slot
                        },
                        (UpdateView::Slot(s), PrettyUpdate::Slot(v)) => v.shows(s),
                        (
                            UpdateView::Transaction { transaction, slot: s },
                            PrettyUpdate::Transaction { transaction: v, slot },
                        ) => {
                            &&& transaction matches Some(info) && v.shows(info, readings)
                            &&& slot == s
                        },
                        (UpdateView::TransactionStatus(s), PrettyUpdate::TransactionStatus(v)) => v.shows(
                            s,
                            readings,
                        ),
                        (UpdateView::Entry(e), PrettyUpdate::Entry(v)) => v.shows(e),
                        (UpdateView::BlockMeta(b), PrettyUpdate::BlockMeta(v)) => {
                            pretty::shown_rewards(b.rewards, readings) matches Ok(rewards) && v.shows(
                                b,
                                rewards,
                            )
                        },
                        (UpdateView::Block(b), PrettyUpdate::Block(v)) => v.shows(b, readings),
                        _ => false,
                    }
                },
                StreamView::Richat { update: Some(u), .. } => r is Ok ==> {
                    &&& r->Ok_0 matches StreamAction::Print { kind, created_at, filters, value }
                    &&& Some(created_at) == created
                    &&& filters@.len() == 0
                    &&& kind == match u {
                        RichatView::DeshredTransaction(_) => "deshredTransaction",
                        RichatView::ContactInfo(_) => "contactInfo",
                        RichatView::ContactInfoRemoved { .. } => "contactInfoRemoved",
                        RichatView::BlockFooter(_) => "blockFooter",
                        RichatView::EntryUpdateParent { .. } => "entryUpdateParent",
                        RichatView::DeshredUpdateParent { .. } => "deshredUpdateParent",
                    }
                    &&& value matches PrettyUpdate::Richat(v) && v.shows(u, readings)
                },
            }
        }),
{
    if let StreamView::Geyser { filters: names, .. } = m {
        if let Ok(StreamAction::Print { kind, created_at, filters, value }) = r {
            assert forall|i: int| 0 <= i < names.len() implies (#[trigger] filters@[i])@ == names[i] by {
                assert(geyser::text_each(filters@)[i] == names[i]);
            }
        }
    }
}

/// Why an update is not shown: a key, a hash or a signature has the wrong length, a part is missing or
/// cannot be read, or a status is none.
pub proof fn law_not_shown(
    m: UpdateView,
    created_at: Timestamp,
    filters: Seq<Seq<char>>,
    readings: Readings,
    r: Result<StreamAction, StreamError>,
)
    requires
        stats::shown(
            StreamView::Geyser { filters, update: Some(m), created_at: Some(created_at) },
            true,
            readings,
            r,
        ),
    ensures
        match m {
            UpdateView::Account(a) => r is Ok <==> {
                &&& a.account matches Some(info) && {
                    &&& info.pubkey.len() == 32
                    &&& info.owner.len() == 32
                    &&& info.txn_signature matches Some(s) ==> s.len() == 64
                }
            },
            UpdateView::Slot(s) => r is Ok <==> 0 <= s.status <= 6,
            UpdateView::Transaction { transaction, .. } => r is Ok <==> {
                &&& transaction matches Some(info) && {
                    &&& info.signature.len() == 64
                    &&& readings.transaction(info) is Ok
                }
            },
            UpdateView::TransactionStatus(s) => r is Ok <==> {
                &&& s.signature.len() == 64
                &&& s.err matches Some(e) ==> readings.error(e) is Some
            },
            UpdateView::Entry(e) => r is Ok <==> e.hash.len() == 32,
            UpdateView::BlockMeta(b) => r is Ok <==> pretty::shown_rewards(b.rewards, readings) is Ok,
            UpdateView::Ping => r is Ok,
            UpdateView::Pong => r is Ok,
            UpdateView::Block(_) => true,
        },
        r matches Err(e) ==> match m {
            UpdateView::Account(a) => match e {
                StreamError::NoAccount => a.account is None,
                StreamError::InvalidAccountPubkey => a.account is Some && a.account->Some_0.pubkey.len()
                    != 32,
                StreamError::InvalidAccountOwner => a.account is Some && a.account->Some_0.owner.len()
                    != 32,
                StreamError::InvalidTxnSignature => a.account is Some
                    && a.account->Some_0.txn_signature is Some
                    && a.account->Some_0.txn_signature->Some_0.len() != 64,
                _ => false,
            },
            UpdateView::Slot(_) => e == StreamError::InvalidStatus,
            UpdateView::Transaction { transaction, .. } => match e {
                StreamError::NoTransaction => transaction is None,
                StreamError::InvalidSignature => transaction is Some
                    && transaction->Some_0.signature.len() != 64,
                StreamError::InvalidTransaction => transaction is Some && readings.transaction(
                    transaction->Some_0,
                ) is Err,
                _ => false,
            },
            UpdateView::TransactionStatus(s) => match e {
                StreamError::InvalidSignature => s.signature.len() != 64,
                StreamError::InvalidError => s.err is Some && readings.error(s.err->Some_0) is None,
                _ => false,
            },
            UpdateView::Entry(_) => e == StreamError::InvalidEntryHash,
            UpdateView::BlockMeta(_) => e == StreamError::InvalidRewards,
            _ => true,
        },
{
}

/// An account is shown with all of its parts: keys and signature in base 58 and the data in hexadecimal.
pub proof fn law_pretty_account(v: PrettyAccount, m: AccountInfoView)
    requires
        v.shows(m),
    ensures
        v.pubkey@ == text::base58(m.pubkey),
        v.lamports == m.lamports,
        v.owner@ == text::base58(m.owner),
        v.executable == m.executable,
        v.rent_epoch == m.rent_epoch,
        v.data@ == text::hex(m.data),
        v.write_version == m.write_version,
        v.txn_signature is Some <==> m.txn_signature is Some,
        v.txn_signature is Some ==> v.txn_signature->Some_0@ == text::base58(
            m.txn_signature->Some_0,
        ),
{
}

/// A slot is shown with its parent, the name of its status and what killed it.
pub proof fn law_pretty_slot(v: PrettySlot, m: SlotView)
    requires
        v.shows(m),
    ensures
        v.slot == m.slot,
        v.parent == m.parent,
        0 <= m.status <= 6,
        m.status == 0 ==> v.status == "SLOT_PROCESSED",
        m.status == 1 ==> v.status == "SLOT_CONFIRMED",
        m.status == 2 ==> v.status == "SLOT_FINALIZED",
        m.status == 3 ==> v.status == "SLOT_FIRST_SHRED_RECEIVED",
        m.status == 4 ==> v.status == "SLOT_COMPLETED",
        m.status == 5 ==> v.status == "SLOT_CREATED_BANK",
        m.status == 6 ==> v.status == "SLOT_DEAD",
        v.dead_error is Some <==> m.dead_error is Some,
        v.dead_error is Some ==> v.dead_error->Some_0@ == m.dead_error->Some_0,
{
}

/// A transaction is shown with its signature, whether it is a vote, and what the types of the validator
/// make of the rest, the metadata where there is any.
pub proof fn law_pretty_transaction(v: PrettyTransaction, m: TransactionInfoView, readings: Readings)
    requires
        v.shows(m, readings),
    ensures
        v.signature@ == text::base58(m.signature),
        v.is_vote == m.is_vote,
        readings.transaction(m) is Ok,
        readings.transaction(m) matches Ok(TransactionView::Complete(t)) ==> v.transaction@
            == t.transaction && v.meta is Some && v.meta->Some_0@ == t.meta,
        readings.transaction(m) matches Ok(TransactionView::MissingMetadata(t)) ==> v.transaction@ == t
            && v.meta is None,
{
}

/// How a transaction went is shown with its slot, signature, index and error.
pub proof fn law_pretty_status(
    v: PrettyTransactionStatus,
    m: TransactionStatusView,
    readings: Readings,
)
    requires
        v.shows(m, readings),
    ensures
        v.slot == m.slot,
        v.signature@ == text::base58(m.signature),
        v.is_vote == m.is_vote,
        v.index == m.index,
        m.err is None ==> v.err is None,
        m.err matches Some(e) ==> match readings.error(e) {
            Some(told) => v.err is Some && v.err->Some_0@ == told,
            None => v.err is None,
        },
{
}

/// An entry is shown with all of its parts.
pub proof fn law_pretty_entry(v: PrettyEntry, m: EntryView)
    requires
        v.shows(m),
    ensures
        v.slot == m.slot,
        v.index == m.index,
        v.num_hashes == m.num_hashes,
        v.hash@ == text::base58(m.hash),
        v.executed_transaction_count == m.executed_transaction_count,
        v.starting_transaction_index == m.starting_transaction_index,
{
}

/// The metadata of a block is shown with all of its parts, and the rewards in order.
pub proof fn law_pretty_block_meta(
    v: PrettyBlockMeta,
    m: BlockMetaView,
    rewards: Option<Seq<RewardView>>,
)
    requires
        v.shows(m, rewards),
    ensures
        v.slot == m.slot,
        v.blockhash@ == m.blockhash,
        v.block_time == m.block_time,
        v.block_height == m.block_height,
        v.parent_slot == m.parent_slot,
        v.parent_blockhash@ == m.parent_blockhash,
        v.executed_transaction_count == m.executed_transaction_count,
        v.entries_count == m.entries_count,
        v.rewards is Some <==> rewards is Some,
        v.rewards is Some ==> {
            &&& v.rewards->Some_0@.len() == rewards->Some_0.len()
            &&& forall|i: int|
                0 <= i < rewards->Some_0.len() ==> (#[trigger] v.rewards->Some_0@[i])@
                    == rewards->Some_0[i]
        },
{
    if let Some(shown) = v.rewards {
        assert forall|i: int| 0 <= i < rewards->Some_0.len() implies (#[trigger] shown@[i])@
            == rewards->Some_0[i] by {
            assert(parser::views(shown@)[i] == rewards->Some_0[i]);
        }
    }
}

/// A block is shown with its metadata and all of its parts, in order.
pub proof fn law_pretty_block(v: PrettyBlock, m: BlockView, readings: Readings)
    requires
        v.shows(m, readings),
    ensures
        v.updated_account_count == m.updated_account_count,
        v.meta.slot == m.meta.slot,
        v.meta.blockhash@ == m.meta.blockhash,
        v.transactions@.len() == m.transactions.len(),
        v.accounts@.len() == m.accounts.len(),
        v.entries@.len() == m.entries.len(),
        forall|i: int|
            0 <= i < m.transactions.len() ==> geyser::prost_transaction_info(
                #[trigger] m.transactions[i],
            ) is Some && v.transactions@[i].shows(
                geyser::prost_transaction_info(m.transactions[i])->Some_0,
                readings,
            ),
        forall|i: int|
            0 <= i < m.accounts.len() ==> geyser::prost_account_info(#[trigger] m.accounts[i]) is Some && 
            v.accounts@[i].shows(geyser::prost_account_info(m.accounts[i])->Some_0),
        forall|i: int|
            0 <= i < m.entries.len() ==> geyser::prost_entry(#[trigger] m.entries[i]) is Some && 
            v.entries@[i].shows(geyser::prost_entry(m.entries[i])->Some_0),
{
    let txs = m.transactions.map_values(
        |part: Seq<u8>| parser::decoded(geyser::prost_transaction_info(part)),
    );
    let accounts = m.accounts.map_values(
        |part: Seq<u8>| parser::decoded(geyser::prost_account_info(part)),
    );
    let entries = m.entries.map_values(
        |part: Seq<u8>| parser::decoded(geyser::prost_entry(part)),
    );
    said::lemma_all_ok(txs);
    said::lemma_all_ok(accounts);
    said::lemma_all_ok(entries);
    let ts = parser::all_ok(txs)->Ok_0;
    let es = parser::all_ok(entries)->Ok_0;
    let a = parser::all_ok(accounts)->Ok_0;
    assert forall|i: int| 0 <= i < m.transactions.len() implies geyser::prost_transaction_info(
        #[trigger] m.transactions[i],
    ) is Some && v.transactions@[i].shows(
        geyser::prost_transaction_info(m.transactions[i])->Some_0,
        readings,
    ) by {
        assert(txs[i] == Ok::<TransactionInfoView, ParseFailure>(ts[i]));
    }
    assert forall|i: int| 0 <= i < m.accounts.len() implies geyser::prost_account_info(
        #[trigger] m.accounts[i],
    ) is Some && v.accounts@[i].shows(
        geyser::prost_account_info(m.accounts[i])->Some_0,
    ) by {
        assert(accounts[i] == Ok::<AccountInfoView, ParseFailure>(a[i]));
    }
    assert forall|i: int| 0 <= i < m.entries.len() implies geyser::prost_entry(#[trigger] m.entries[i]) is Some && v.entries@[i].shows(geyser::prost_entry(m.entries[i])->Some_0) by {
        assert(entries[i] == Ok::<EntryView, ParseFailure>(es[i]));
    }
}

/// An update that is none of the stream is shown as one of its kind, with all of its parts.
pub proof fn law_pretty_richat(v: PrettyRichat, m: RichatView, readings: Readings)
    requires
        v.shows(m, readings),
    ensures
        match (v, m) {
            (PrettyRichat::DeshredTransaction { transaction, slot }, RichatView::DeshredTransaction(d)) => {
                &&& slot == d.slot
                &&& d.transaction matches Some(t) && {
                    &&& transaction.signature@ == text::base58(t.signature)
                    &&& transaction.is_vote == t.is_vote
                    &&& t.transaction is Some
                    &&& readings.body(t.transaction->Some_0) == Some(transaction.transaction@)
                    &&& transaction.loaded_writable_addresses@.len() == t.loaded_writable_addresses.len()
                    &&& transaction.loaded_readonly_addresses@.len() == t.loaded_readonly_addresses.len()
                    &&& forall|i: int|
                        0 <= i < t.loaded_writable_addresses.len() ==> (
                        #[trigger] transaction.loaded_writable_addresses@[i])@ == text::base58(
                            t.loaded_writable_addresses[i],
                        )
                    &&& forall|i: int|
                        0 <= i < t.loaded_readonly_addresses.len() ==> (
                        #[trigger] transaction.loaded_readonly_addresses@[i])@ == text::base58(
                            t.loaded_readonly_addresses[i],
                        )
                    &&& transaction.completed_data_set_starting_shred_index
                        == t.completed_data_set_starting_shred_index
                    &&& transaction.completed_data_set_ending_shred_index_exclusive
                        == t.completed_data_set_ending_shred_index_exclusive
                }
            },
            (PrettyRichat::ContactInfo(c), RichatView::ContactInfo(n)) => {
                &&& c.pubkey@ == text::base58(n.pubkey)
                &&& c.version@ == text::decimal(n.version_major as nat) + "."@ + text::decimal(
                    n.version_minor as nat,
                ) + "."@ + text::decimal(n.version_patch as nat)
                &&& c.node@ == n
            },
            (
                PrettyRichat::ContactInfoRemoved { pubkey },
                RichatView::ContactInfoRemoved { pubkey: key },
            ) => pubkey@ == text::base58(key),
            (PrettyRichat::BlockFooter(f), RichatView::BlockFooter(b)) => {
                &&& f.slot == b.slot
                &&& f.bank_id == b.bank_id
                &&& f.version == b.version
                &&& f.bank_hash@ == text::base58(b.bank_hash)
                &&& f.block_producer_time_nanos == b.block_producer_time_nanos
                &&& f.block_user_agent@ == text::utf8_lossy(b.block_user_agent)
                &&& f.footer@ == text::hex(b.footer)
            },
            (
                PrettyRichat::EntryUpdateParent {
                    slot,
                    cleared_bank_id,
                    parent_slot,
                    parent_block_id,
                },
                RichatView::EntryUpdateParent {
                    slot: s,
                    cleared_bank_id: c,
                    parent_slot: p,
                    parent_block_id: id,
                },
            ) => {
                &&& slot == s
                &&& cleared_bank_id == c
                &&& parent_slot == p
                &&& parent_block_id@ == text::base58(id)
            },
            (
                PrettyRichat::DeshredUpdateParent {
                    slot,
                    update_parent_fec_set_index,
                    parent_slot,
                    parent_block_id,
                },
                RichatView::DeshredUpdateParent {
                    slot: s,
                    update_parent_fec_set_index: i,
                    parent_slot: p,
                    parent_block_id: id,
                },
            ) => {
                &&& slot == s
                &&& update_parent_fec_set_index == i
                &&& parent_slot == p
                &&& parent_block_id@ == text::base58(id)
            },
            _ => false,
        },
{
}

/// What is said of why an update cannot be shown tells the reasons apart.
pub proof fn law_error_texts()
    ensures
        StreamError::NoCreatedAt.text() == "no created_at in the message",
        StreamError::InvalidCreatedAt.text() == "failed to parse created_at",
        StreamError::InvalidStatus.text() == "failed to decode commitment",
        StreamError::NoAccount.text() == "no account in the message",
        StreamError::NoTransaction.text() == "no transaction in the message",
        StreamError::InvalidAccountPubkey.text() == "invalid account pubkey",
        StreamError::InvalidAccountOwner.text() == "invalid account owner",
        StreamError::InvalidTxnSignature.text() == "invalid txn signature",
        StreamError::InvalidSignature.text() == "invalid signature",
        StreamError::InvalidTransaction.text() == "invalid tx with meta",
        StreamError::InvalidBody.text() == "invalid transaction",
        StreamError::InvalidError.text() == "invalid error",
        StreamError::MissingTransaction.text() == "no transaction",
        StreamError::InvalidEntryHash.text() == "invalid entry hash",
        StreamError::InvalidRewards.text() == "invalid rewards",
        StreamError::InvalidPubkey.text() == "invalid pubkey",
        StreamError::InvalidParentBlockId.text() == "invalid parent block id",
        StreamError::InvalidBankHash.text() == "invalid bank hash",
        StreamError::Malformed.text() == "invalid part of a block",
{
}

/// A slot is written as its number, and as `null` where there is none.
pub proof fn law_slot_text(slot: u64)
    ensures
        stats::slot_text(Some(slot)) == text::decimal(slot as nat),
        stats::slot_text(None) == "null"@,
{
}

/// Why an update that is none of the stream is not shown: a key, a hash or a signature has the wrong
/// length, or a part is missing or cannot be read.
pub proof fn law_richat_not_shown(m: RichatView, readings: Readings)
    ensures
        match m {
            RichatView::DeshredTransaction(d) => pretty::richat_failure(m, readings) is None <==> {
                &&& d.transaction matches Some(t) && {
                    &&& t.signature.len() == 64
                    &&& t.transaction matches Some(body) && readings.body(body) is Some
                    &&& forall|i: int|
                        0 <= i < t.loaded_writable_addresses.len() ==> (
                        #[trigger] t.loaded_writable_addresses[i]).len() == 32
                    &&& forall|i: int|
                        0 <= i < t.loaded_readonly_addresses.len() ==> (
                        #[trigger] t.loaded_readonly_addresses[i]).len() == 32
                }
            },
            RichatView::ContactInfo(n) => pretty::richat_failure(m, readings) == if n.pubkey.len()
                == 32 {
                None
            } else {
                Some(StreamError::InvalidPubkey)
            },
            RichatView::ContactInfoRemoved { pubkey } => pretty::richat_failure(m, readings)
                == if pubkey.len() == 32 {
                None
            } else {
                Some(StreamError::InvalidPubkey)
            },
            RichatView::BlockFooter(b) => pretty::richat_failure(m, readings) == if b.bank_hash.len()
                == 32 {
                None
            } else {
                Some(StreamError::InvalidBankHash)
            },
            RichatView::EntryUpdateParent { parent_block_id, .. } => pretty::richat_failure(
                m,
                readings,
            ) == if parent_block_id.len() == 32 {
                None
            } else {
                Some(StreamError::InvalidParentBlockId)
            },
            RichatView::DeshredUpdateParent { parent_block_id, .. } => pretty::richat_failure(
                m,
                readings,
            ) == if parent_block_id.len() == 32 {
                None
            } else {
                Some(StreamError::InvalidParentBlockId)
            },
        },
{
}

} // verus!
