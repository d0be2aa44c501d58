//! Which updates pass, said of what a subscriber asks for: each condition of a filter counts by itself, and
//! together they are all that counts.
use vstd::prelude::*;

use crate::account::{MessageAccount, MessageAccountView};
use crate::collections;
use crate::config::{
    ConfigFilter, ConfigFilterAccounts, ConfigFilterAccountsDataSlice, ConfigFilterAccountsFilter,
    ConfigFilterAccountsFilterLamports, ConfigFilterBlocks, ConfigFilterCommitment,
    ConfigFilterSlots, ConfigFilterTransactions,
};
use crate::filter;
use crate::filter::{
    AccountsModel, BlocksModel, Filter, FilterSlotsInner, FilteredUpdate, FilteredUpdateType,
    TransactionsModel,
};
use crate::geyser::{AccountInfoView, CommitmentLevel, SlotStatus};
use crate::message::{
    MessageBlock, MessageBlockMeta, MessageEntry, MessageRef, MessageSlot,
    MessageTransaction, MessageTransactionView,
};
use crate::pubkey;
use crate::pubkey::Pubkey;

verus! {

/// Whether the update `what` is among the updates, under the name.
pub open spec fn under(
    updates: Seq<FilteredUpdate>,
    what: FilteredUpdateType,
    name: Seq<char>,
) -> bool {
    exists|k: int|
        0 <= k < updates.len() && (#[trigger] updates[k]).filtered_update == what
            && collections::names(updates[k].filters).contains(name)
}

/// Whether one of the keys is `key`.
pub open spec fn lists(keys: Seq<Pubkey>, key: Seq<u8>) -> bool {
    exists|a: int| 0 <= a < keys.len() && (#[trigger] keys[a])@ == key
}

/// Whether one of the listed keys is among `keys`.
pub open spec fn touches(keys: Set<Seq<u8>>, listed: Seq<Pubkey>) -> bool {
    exists|a: int| 0 <= a < listed.len() && keys.contains((#[trigger] listed[a])@)
}

/// The keys of a list are those of the set made of it.
proof fn lemma_listed(keys: Seq<Pubkey>)
    ensures
        forall|key: Seq<u8>| #[trigger]
            pubkey::key_seq(keys).to_set().contains(key) <==> lists(keys, key),
        pubkey::key_seq(keys).to_set() == Set::<Seq<u8>>::empty() <==> keys.len() == 0,
{
    let s = pubkey::key_seq(keys);
    assert forall|key: Seq<u8>| #[trigger] s.to_set().contains(key) <==> lists(keys, key) by {
        if s.to_set().contains(key) {
            assert(s.contains(key));
            let a = choose|a: int| 0 <= a < s.len() && s[a] == key;
            assert(keys[a]@ == key);
        }
        if lists(keys, key) {
            let a = choose|a: int| 0 <= a < keys.len() && (#[trigger] keys[a])@ == key;
            assert(s[a] == key);
        }
    }
    if keys.len() == 0 {
        assert(s.to_set() =~= Set::<Seq<u8>>::empty());
    } else {
        assert(s[0] == keys[0]@);
        assert(s.to_set().contains(keys[0]@));
    }
}

/// The name of a filter is among those of an update exactly where the filter passes it.
proof fn lemma_under<M>(filters: Seq<(Seq<char>, M)>, passes: spec_fn(M) -> bool, i: int)
    requires
        filter::apart(filters),
        0 <= i < filters.len(),
    ensures
        filter::matching(filters, passes).contains(filters[i].0) <==> passes(filters[i].1),
{
    filter::law_matching(filters, passes, filters[i].0);
    if filter::matching(filters, passes).contains(filters[i].0) {
        let j = choose|j: int|
            0 <= j < filters.len() && (#[trigger] filters[j]).0 == filters[i].0 && passes(
                filters[j].1,
            );
        if j < i {
            assert(filters[j].0 != filters[i].0);
        } else if i < j {
            assert(filters[i].0 != filters[j].0);
        }
    } else if passes(filters[i].1) {
        assert(filters[i].0 == filters[i].0);
    }
}

proof fn lemma_updates_with(
    updates: Seq<FilteredUpdate>,
    names: Seq<Seq<char>>,
    what: FilteredUpdateType,
    name: Seq<char>,
)
    requires
        filter::updates_with(updates, names, what),
    ensures
        under(updates, what, name) <==> names.contains(name),
        forall|k: int| 0 <= k < updates.len() ==> (#[trigger] updates[k]).filtered_update == what,
        updates.len() <= 1,
{
    if names.contains(name) {
        assert(updates[0].filtered_update == what);
    }
}

// ---------------------------------------------------------------------------------------------
// Transactions
// ---------------------------------------------------------------------------------------------

/// A filter of transactions passes a transaction exactly where each of its conditions holds: it is a vote
/// or not as asked for, failed or not, has the signature, touches one of the accounts to include, none of
/// those to exclude, and all of those that are required.
pub proof fn law_transactions_model(config: ConfigFilterTransactions, tx: MessageTransactionView)
    ensures
        filter::transactions_model(config).passes(tx) <==> {
            &&& config.vote == Some(true) ==> tx.vote()
            &&& config.vote == Some(false) ==> !tx.vote()
            &&& config.failed == Some(true) ==> tx.error() is Some
            &&& config.failed == Some(false) ==> tx.error() is None
            &&& config.signature matches Some(s) ==> tx.signature() == s@
            &&& config.account_include@.len() > 0 ==> exists|a: int|
                0 <= a < config.account_include@.len() && tx.account_keys().contains(
                    (#[trigger] config.account_include@[a])@,
                )
            &&& forall|a: int|
                0 <= a < config.account_exclude@.len() ==> !tx.account_keys().contains(
                    (#[trigger] config.account_exclude@[a])@,
                )
            &&& forall|a: int|
                0 <= a < config.account_required@.len() ==> tx.account_keys().contains(
                    (#[trigger] config.account_required@[a])@,
                )
        },
{
    let m = filter::transactions_model(config);
    let keys = tx.account_keys();
    lemma_listed(config.account_include@);
    lemma_listed(config.account_exclude@);
    lemma_listed(config.account_required@);
    assert(config.account_include@.len() > 0 ==> (!m.account_include.disjoint(keys) <==> exists|
        a: int,
    |
        0 <= a < config.account_include@.len() && keys.contains(
            (#[trigger] config.account_include@[a])@,
        ))) by {
        if !m.account_include.disjoint(keys) {
            let k = choose|k: Seq<u8>| m.account_include.contains(k) && keys.contains(k);
            assert(m.account_include.contains(k));
            assert(lists(config.account_include@, k));
        }
        if exists|a: int|
            0 <= a < config.account_include@.len() && keys.contains(
                (#[trigger] config.account_include@[a])@,
            ) {
            let a = choose|a: int|
                0 <= a < config.account_include@.len() && keys.contains(
                    (#[trigger] config.account_include@[a])@,
                );
            assert(lists(config.account_include@, config.account_include@[a]@));
            assert(m.account_include.contains(config.account_include@[a]@));
        }
    }
    assert(m.account_exclude.disjoint(keys) <==> forall|a: int|
        0 <= a < config.account_exclude@.len() ==> !keys.contains(
            (#[trigger] config.account_exclude@[a])@,
        )) by {
        if m.account_exclude.disjoint(keys) {
            assert forall|a: int| 0 <= a < config.account_exclude@.len() implies !keys.contains(
                (#[trigger] config.account_exclude@[a])@,
            ) by {
                assert(lists(config.account_exclude@, config.account_exclude@[a]@));
                assert(m.account_exclude.contains(config.account_exclude@[a]@));
            }
        } else {
            let k = choose|k: Seq<u8>| m.account_exclude.contains(k) && keys.contains(k);
            assert(m.account_exclude.contains(k));
            assert(lists(config.account_exclude@, k));
        }
    }
    assert(m.account_required.subset_of(keys) <==> forall|a: int|
        0 <= a < config.account_required@.len() ==> keys.contains(
            (#[trigger] config.account_required@[a])@,
        )) by {
        if m.account_required.subset_of(keys) {
            assert forall|a: int| 0 <= a < config.account_required@.len() implies keys.contains(
                (#[trigger] config.account_required@[a])@,
            ) by {
                assert(lists(config.account_required@, config.account_required@[a]@));
                assert(m.account_required.contains(config.account_required@[a]@));
            }
        } else {
            let k = choose|k: Seq<u8>| m.account_required.contains(k) && !keys.contains(k);
            assert(m.account_required.contains(k));
            assert(lists(config.account_required@, k));
        }
    }
}

/// A transaction comes to a subscriber under the name of a filter exactly where it meets all that this
/// filter asks for, and in no other way than as the transaction. Its status comes under the names of the
/// filters of statuses, by the same conditions.
pub proof fn law_transaction_passes(
    config: ConfigFilter,
    filter: &Filter,
    updates: Seq<FilteredUpdate>,
    m: &MessageTransaction,
    commitment: CommitmentLevel,
)
    requires
        config.fits(),
        filter@ == filter::filter_model(config),
        filter.makes(updates, MessageRef::Transaction(m), commitment),
    ensures
        forall|i: int|
            #![trigger config.transactions@[i]]
            0 <= i < config.transactions@.len() ==> {
                let c = config.transactions@[i].1;
                under(
                    updates,
                    FilteredUpdateType::Transaction { message: m },
                    config.transactions@[i].0@,
                ) <==> {
                    &&& c.vote matches Some(v) ==> v == m@.vote()
                    &&& c.failed matches Some(v) ==> v == m@.error() is Some
                    &&& c.signature matches Some(s) ==> m@.signature() == s@
                    &&& c.account_include@.len() > 0 ==> exists|a: int|
                        0 <= a < c.account_include@.len() && m@.account_keys().contains(
                            (#[trigger] c.account_include@[a])@,
                        )
                    &&& forall|a: int|
                        0 <= a < c.account_exclude@.len() ==> !m@.account_keys().contains(
                            (#[trigger] c.account_exclude@[a])@,
                        )
                    &&& forall|a: int|
                        0 <= a < c.account_required@.len() ==> m@.account_keys().contains(
                            (#[trigger] c.account_required@[a])@,
                        )
                }
            },
        forall|i: int|
            #![trigger config.transactions_status@[i]]
            0 <= i < config.transactions_status@.len() ==> {
                let c = config.transactions_status@[i].1;
                under(
                    updates,
                    FilteredUpdateType::TransactionStatus { message: m },
                    config.transactions_status@[i].0@,
                ) <==> {
                    &&& c.vote matches Some(v) ==> v == m@.vote()
                    &&& c.failed matches Some(v) ==> v == m@.error() is Some
                    &&& c.signature matches Some(s) ==> m@.signature() == s@
                    &&& c.account_include@.len() > 0 ==> exists|a: int|
                        0 <= a < c.account_include@.len() && m@.account_keys().contains(
                            (#[trigger] c.account_include@[a])@,
                        )
                    &&& forall|a: int|
                        0 <= a < c.account_exclude@.len() ==> !m@.account_keys().contains(
                            (#[trigger] c.account_exclude@[a])@,
                        )
                    &&& forall|a: int|
                        0 <= a < c.account_required@.len() ==> m@.account_keys().contains(
                            (#[trigger] c.account_required@[a])@,
                        )
                }
            },
        forall|k: int|
            0 <= k < updates.len() ==> {
                ||| (#[trigger] updates[k]).filtered_update == (FilteredUpdateType::Transaction {
                    message: m,
                })
                ||| updates[k].filtered_update == (FilteredUpdateType::TransactionStatus {
                    message: m,
                })
            },
        updates.len() <= 2,
{
    let f = filter@;
    let passes = |t: TransactionsModel| t.passes(m@);
    let names = filter::matching(f.transactions, passes);
    let statuses = filter::matching(f.transactions_status, passes);
    let k: int = if names.len() == 0 {
        0
    } else {
        1
    };
    let a = FilteredUpdateType::Transaction { message: m };
    let b = FilteredUpdateType::TransactionStatus { message: m };
    filter::law_names_apart(config);
    assert forall|i: int| 0 <= i < updates.len() implies {
        ||| (#[trigger] updates[i]).filtered_update == a
        ||| updates[i].filtered_update == b
    } by {
        if i < k {
            assert(updates.take(k)[i] == updates[i]);
        } else {
            assert(updates.skip(k)[i - k] == updates[i]);
        }
    }
    assert forall|i: int|
        #![trigger config.transactions@[i]]
        0 <= i < config.transactions@.len() implies (under(
        updates,
        a,
        config.transactions@[i].0@,
    ) <==> filter::transactions_model(config.transactions@[i].1).passes(m@)) by {
        let name = config.transactions@[i].0@;
        assert(f.transactions[i] == (name, filter::transactions_model(config.transactions@[i].1)));
        lemma_under(f.transactions, passes, i);
        lemma_updates_with(updates.take(k), names, a, name);
        if under(updates, a, name) {
            let j = choose|j: int|
                0 <= j < updates.len() && (#[trigger] updates[j]).filtered_update == a
                    && collections::names(updates[j].filters).contains(name);
            if j < k {
                assert(updates.take(k)[j] == updates[j]);
                assert(under(updates.take(k), a, name));
            } else {
                assert(updates.skip(k)[j - k] == updates[j]);
            }
        }
        if under(updates.take(k), a, name) {
            let j = choose|j: int|
                0 <= j < updates.take(k).len() && (#[trigger] updates.take(k)[j]).filtered_update
                    == a && collections::names(updates.take(k)[j].filters).contains(name);
            assert(updates[j] == updates.take(k)[j]);
        }
    }
    assert forall|i: int|
        #![trigger config.transactions_status@[i]]
        0 <= i < config.transactions_status@.len() implies (under(
        updates,
        b,
        config.transactions_status@[i].0@,
    ) <==> filter::transactions_model(config.transactions_status@[i].1).passes(m@)) by {
        let name = config.transactions_status@[i].0@;
        assert(f.transactions_status[i] == (
            name,
            filter::transactions_model(config.transactions_status@[i].1),
        ));
        lemma_under(f.transactions_status, passes, i);
        lemma_updates_with(updates.skip(k), statuses, b, name);
        if under(updates, b, name) {
            let j = choose|j: int|
                0 <= j < updates.len() && (#[trigger] updates[j]).filtered_update == b
                    && collections::names(updates[j].filters).contains(name);
            if j < k {
                assert(updates.take(k)[j] == updates[j]);
            } else {
                assert(updates.skip(k)[j - k] == updates[j]);
                assert(under(updates.skip(k), b, name));
            }
        }
        if under(updates.skip(k), b, name) {
            let j = choose|j: int|
                0 <= j < updates.skip(k).len() && (#[trigger] updates.skip(k)[j]).filtered_update
                    == b && collections::names(updates.skip(k)[j].filters).contains(name);
            assert(updates[j + k] == updates.skip(k)[j]);
        }
    }
    assert forall|i: int|
        #![trigger config.transactions@[i]]
        0 <= i < config.transactions@.len() implies true by {
        law_transactions_model(config.transactions@[i].1, m@);
    }
    assert forall|c: ConfigFilterTransactions| #[trigger]
        filter::transactions_model(c).passes(m@) <==> {
            &&& c.vote matches Some(v) ==> v == m@.vote()
            &&& c.failed matches Some(v) ==> v == m@.error() is Some
            &&& c.signature matches Some(s) ==> m@.signature() == s@
            &&& c.account_include@.len() > 0 ==> exists|a: int|
                0 <= a < c.account_include@.len() && m@.account_keys().contains(
                    (#[trigger] c.account_include@[a])@,
                )
            &&& forall|a: int|
                0 <= a < c.account_exclude@.len() ==> !m@.account_keys().contains(
                    (#[trigger] c.account_exclude@[a])@,
                )
            &&& forall|a: int|
                0 <= a < c.account_required@.len() ==> m@.account_keys().contains(
                    (#[trigger] c.account_required@[a])@,
                )
        } by {
        law_transactions_model(c, m@);
    }
}

/// A transaction that touches an account that a filter excludes never comes under its name, whatever else
/// the filter asks for.
pub proof fn law_excluded(
    config: ConfigFilter,
    filter: &Filter,
    updates: Seq<FilteredUpdate>,
    m: &MessageTransaction,
    commitment: CommitmentLevel,
    i: int,
    a: int,
)
    requires
        config.fits(),
        filter@ == filter::filter_model(config),
        filter.makes(updates, MessageRef::Transaction(m), commitment),
        0 <= i < config.transactions@.len(),
        0 <= a < config.transactions@[i].1.account_exclude@.len(),
        m@.account_keys().contains(config.transactions@[i].1.account_exclude@[a]@),
    ensures
        !under(
            updates,
            FilteredUpdateType::Transaction { message: m },
            config.transactions@[i].0@,
        ),
{
    law_transaction_passes(config, filter, updates, m, commitment);
}

// ---------------------------------------------------------------------------------------------
// Accounts
// ---------------------------------------------------------------------------------------------

/// Whether the account meets what is asked for: the bytes are in its data at the offset, its data has the
/// length, it is a token account, or its lamports compare as asked for.
pub open spec fn meets(f: ConfigFilterAccountsFilter, info: AccountInfoView) -> bool {
    match f {
        ConfigFilterAccountsFilter::Bytes { offset, data } => {
            &&& offset + data@.len() <= info.data.len()
            &&& forall|x: int| 0 <= x < data@.len() ==> info.data[offset + x] == #[trigger] data@[x]
        },
        ConfigFilterAccountsFilter::DataSize(size) => info.data.len() == size as usize,
        ConfigFilterAccountsFilter::TokenAccountState => filter::token_account(info.data),
        ConfigFilterAccountsFilter::Lamports(ConfigFilterAccountsFilterLamports::Eq(v)) => {
            info.lamports == v
        },
        ConfigFilterAccountsFilter::Lamports(ConfigFilterAccountsFilterLamports::Ne(v)) => {
            info.lamports != v
        },
        ConfigFilterAccountsFilter::Lamports(ConfigFilterAccountsFilterLamports::Lt(v)) => {
            info.lamports < v
        },
        ConfigFilterAccountsFilter::Lamports(ConfigFilterAccountsFilterLamports::Gt(v)) => {
            info.lamports > v
        },
    }
}

/// Whether another length is asked for behind the place.
pub open spec fn sized_later(filters: Seq<ConfigFilterAccountsFilter>, j: int) -> bool {
    exists|k: int| j < k < filters.len() && (#[trigger] filters[k]) is DataSize
}

/// What the conditions say but for the length: of the model, and of the list that it is made of.
spec fn others_met(filters: Seq<ConfigFilterAccountsFilter>, info: AccountInfoView) -> bool {
    forall|j: int|
        0 <= j < filters.len() && !((#[trigger] filters[j]) is DataSize) ==> meets(filters[j], info)
}

/// One more thing to meet is met where it is, and so are those before it.
proof fn lemma_one_more(filters: Seq<ConfigFilterAccountsFilter>, info: AccountInfoView)
    requires
        filters.len() > 0,
    ensures
        others_met(filters, info) <==> others_met(filters.drop_last(), info) && (filters.last()
            is DataSize || meets(filters.last(), info)),
{
    let n = filters.len() - 1;
    let rest = filters.drop_last();
    if others_met(filters, info) {
        assert(filters[n] is DataSize || meets(filters[n], info));
        assert forall|j: int| 0 <= j < rest.len() && !((#[trigger] rest[j]) is DataSize) implies meets(
            rest[j],
            info,
        ) by {
            assert(filters[j] == rest[j]);
        }
    }
    if others_met(rest, info) && (filters.last() is DataSize || meets(filters.last(), info)) {
        assert forall|j: int| 0 <= j < filters.len() && !((#[trigger] filters[j]) is DataSize) implies meets(
            filters[j],
            info,
        ) by {
            if j < n {
                assert(rest[j] == filters[j]);
            }
        }
    }
}

proof fn lemma_chunk(offset: usize, data: Vec<u8>, info: AccountInfoView)
    ensures
        filter::chunk_in((offset as nat, data@), info.data) <==> meets(
            ConfigFilterAccountsFilter::Bytes { offset, data },
            info,
        ),
{
    let f = ConfigFilterAccountsFilter::Bytes { offset, data };
    if filter::chunk_in((offset as nat, data@), info.data) {
        let part = info.data.subrange(offset as int, offset + data@.len());
        assert forall|x: int| 0 <= x < data@.len() implies info.data[offset + x]
            == #[trigger] data@[x] by {
            assert(part[x] == data@[x]);
        }
    }
    if meets(f, info) {
        assert(info.data.subrange(offset as int, offset + data@.len()) =~= data@);
    }
}

/// Whether all but the length is met.
spec fn model_met(m: filter::StateModel, info: AccountInfoView) -> bool {
    &&& m.token_account_state ==> filter::token_account(info.data)
    &&& forall|i: int| 0 <= i < m.lamports.len() ==> (#[trigger] m.lamports[i]).passes(
        info.lamports,
    )
    &&& forall|i: int| 0 <= i < m.chunks.len() ==> filter::chunk_in(
        #[trigger] m.chunks[i],
        info.data,
    )
}

/// Without lengths, a list is met where each of it is.
proof fn lemma_others(filters: Seq<ConfigFilterAccountsFilter>, info: AccountInfoView)
    ensures
        model_met(filter::state_model(filters), info) <==> others_met(filters, info),
    decreases filters.len(),
{
    if filters.len() > 0 {
        let rest = filters.drop_last();
        lemma_others(rest, info);
        lemma_one_more(filters, info);
        let before = filter::state_model(rest);
        let m = filter::state_model(filters);
        match filters.last() {
            ConfigFilterAccountsFilter::Bytes { offset, data } => {
                let chunk = (offset as nat, data@);
                lemma_chunk(offset, data, info);
                assert(m == (filter::StateModel { chunks: before.chunks.push(chunk), ..before }));
                if model_met(m, info) {
                    assert(m.chunks[before.chunks.len() as int] == chunk);
                    assert forall|i: int| 0 <= i < before.chunks.len() implies filter::chunk_in(
                        #[trigger] before.chunks[i],
                        info.data,
                    ) by {
                        assert(m.chunks[i] == before.chunks[i]);
                    }
                    assert(model_met(before, info));
                }
                if model_met(before, info) && filter::chunk_in(chunk, info.data) {
                    assert forall|i: int| 0 <= i < m.chunks.len() implies filter::chunk_in(
                        #[trigger] m.chunks[i],
                        info.data,
                    ) by {
                        if i < before.chunks.len() {
                            assert(m.chunks[i] == before.chunks[i]);
                        }
                    }
                    assert(model_met(m, info));
                }
            },
            ConfigFilterAccountsFilter::Lamports(v) => {
                let f = filter::lamports_model(v);
                assert(m == (filter::StateModel { lamports: before.lamports.push(f), ..before }));
                assert(f.passes(info.lamports) <==> meets(filters.last(), info));
                if model_met(m, info) {
                    assert(m.lamports[before.lamports.len() as int] == f);
                    assert forall|i: int| 0 <= i < before.lamports.len() implies (
                    #[trigger] before.lamports[i]).passes(info.lamports) by {
                        assert(m.lamports[i] == before.lamports[i]);
                    }
                    assert(model_met(before, info));
                }
                if model_met(before, info) && f.passes(info.lamports) {
                    assert forall|i: int| 0 <= i < m.lamports.len() implies (
                    #[trigger] m.lamports[i]).passes(info.lamports) by {
                        if i < before.lamports.len() {
                            assert(m.lamports[i] == before.lamports[i]);
                        }
                    }
                    assert(model_met(m, info));
                }
            },
            ConfigFilterAccountsFilter::TokenAccountState => {
                assert(m == (filter::StateModel { token_account_state: true, ..before }));
                if !before.token_account_state || filter::token_account(info.data) {
                    assert(model_met(m, info) <==> model_met(before, info) && filter::token_account(
                        info.data,
                    ));
                }
                if model_met(m, info) {
                    assert(model_met(before, info));
                }
            },
            ConfigFilterAccountsFilter::DataSize(v) => {
                assert(m == (filter::StateModel {
                    datasize: Some(filter::length_of(v)),
                    ..before
                }));
                if model_met(m, info) {
                    assert(model_met(before, info));
                }
                if model_met(before, info) {
                    assert(model_met(m, info));
                }
            },
        }
    }
}

/// The length that a list asks for is the last that it has.
proof fn lemma_datasize(filters: Seq<ConfigFilterAccountsFilter>, info: AccountInfoView)
    ensures
        (filter::state_model(filters).datasize matches Some(len) ==> info.data.len() == len) <==> (
        forall|j: int|
            0 <= j < filters.len() && (#[trigger] filters[j]) is DataSize && !sized_later(
                filters,
                j,
            ) ==> meets(filters[j], info)),
    decreases filters.len(),
{
    if filters.len() > 0 {
        let n = filters.len() - 1;
        let rest = filters.drop_last();
        let last = filters.last();
        lemma_datasize(rest, info);
        assert(filters[n] == last);
        assert(!sized_later(filters, n));
        if last is DataSize {
            assert forall|j: int| 0 <= j < n implies sized_later(filters, j) by {
                assert(filters[n] is DataSize);
            }
        } else {
            assert forall|j: int| 0 <= j < n implies (#[trigger] sized_later(filters, j)
                <==> sized_later(rest, j)) by {
                if sized_later(filters, j) {
                    let k = choose|k: int|
                        j < k < filters.len() && (#[trigger] filters[k]) is DataSize;
                    assert(rest[k] is DataSize);
                }
                if sized_later(rest, j) {
                    let k = choose|k: int| j < k < rest.len() && (#[trigger] rest[k]) is DataSize;
                    assert(filters[k] is DataSize);
                }
            }
            assert(filter::state_model(filters).datasize == filter::state_model(rest).datasize);
            let all = forall|j: int|
                0 <= j < filters.len() && (#[trigger] filters[j]) is DataSize && !sized_later(
                    filters,
                    j,
                ) ==> meets(filters[j], info);
            let some = forall|j: int|
                0 <= j < rest.len() && (#[trigger] rest[j]) is DataSize && !sized_later(rest, j)
                    ==> meets(rest[j], info);
            if all {
                assert forall|j: int|
                    0 <= j < rest.len() && (#[trigger] rest[j]) is DataSize && !sized_later(
                        rest,
                        j,
                    ) implies meets(rest[j], info) by {
                    assert(filters[j] == rest[j]);
                    assert(sized_later(filters, j) <==> sized_later(rest, j));
                }
            }
            if some {
                assert forall|j: int|
                    0 <= j < filters.len() && (#[trigger] filters[j]) is DataSize && !sized_later(
                        filters,
                        j,
                    ) implies meets(filters[j], info) by {
                    assert(rest[j] == filters[j]);
                    assert(sized_later(filters, j) <==> sized_later(rest, j));
                }
            }
        }
    }
}

/// An account meets what a list asks for exactly where it meets each of the list. Only of several lengths
/// the last counts.
pub proof fn law_state_model(filters: Seq<ConfigFilterAccountsFilter>, info: AccountInfoView)
    ensures
        filter::state_model(filters).passes(info.lamports, info.data) <==> forall|j: int|
            0 <= j < filters.len() && !((#[trigger] filters[j]) is DataSize && sized_later(
                filters,
                j,
            )) ==> meets(filters[j], info),
{
    let m = filter::state_model(filters);
    lemma_others(filters, info);
    lemma_datasize(filters, info);
    assert(m.passes(info.lamports, info.data) <==> model_met(m, info) && (m.datasize matches Some(
        len,
    ) ==> info.data.len() == len));
    if m.passes(info.lamports, info.data) {
        assert forall|j: int|
            0 <= j < filters.len() && !((#[trigger] filters[j]) is DataSize && sized_later(
                filters,
                j,
            )) implies meets(filters[j], info) by {}
    }
    if forall|j: int|
        0 <= j < filters.len() && !((#[trigger] filters[j]) is DataSize && sized_later(filters, j))
            ==> meets(filters[j], info) {
        assert(others_met(filters, info));
    }
}

/// A filter of accounts passes an account exactly where its key and its owner are among those asked for,
/// where any are, it meets each thing that is asked of it, and it has a signature or none as asked for.
pub proof fn law_accounts_model(config: ConfigFilterAccounts, info: AccountInfoView)
    ensures
        filter::accounts_model(config).passes(info) <==> {
            &&& config.account@.len() > 0 ==> lists(config.account@, info.pubkey)
            &&& config.owner@.len() > 0 ==> lists(config.owner@, info.owner)
            &&& forall|j: int|
                0 <= j < config.filters@.len() && !((#[trigger] config.filters@[j]) is DataSize
                    && sized_later(config.filters@, j)) ==> meets(config.filters@[j], info)
            &&& config.nonempty_txn_signature == Some(true) ==> info.txn_signature is Some
            &&& config.nonempty_txn_signature == Some(false) ==> info.txn_signature is None
        },
{
    lemma_listed(config.account@);
    lemma_listed(config.owner@);
    law_state_model(config.filters@, info);
}

/// An account comes to a subscriber under the name of a filter exactly where it meets all that this filter
/// asks for. The parts of its data are those that the subscriber asks for.
pub proof fn law_account_passes(
    config: ConfigFilter,
    filter: &Filter,
    updates: Seq<FilteredUpdate>,
    m: &MessageAccount,
    commitment: CommitmentLevel,
)
    requires
        config.fits(),
        filter@ == filter::filter_model(config),
        filter.makes(updates, MessageRef::Account(m), commitment),
    ensures
        forall|i: int|
            #![trigger config.accounts@[i]]
            0 <= i < config.accounts@.len() ==> {
                let c = config.accounts@[i].1;
                let info = m@.content().info;
                under(
                    updates,
                    FilteredUpdateType::Account { message: m, data_slices: filter.data_slices() },
                    config.accounts@[i].0@,
                ) <==> {
                    &&& c.account@.len() > 0 ==> lists(c.account@, info.pubkey)
                    &&& c.owner@.len() > 0 ==> lists(c.owner@, info.owner)
                    &&& forall|j: int|
                        0 <= j < c.filters@.len() && !((#[trigger] c.filters@[j]) is DataSize
                            && sized_later(c.filters@, j)) ==> meets(c.filters@[j], info)
                    &&& c.nonempty_txn_signature matches Some(v) ==> v == (info.txn_signature
                        is Some)
                }
            },
        forall|k: int|
            0 <= k < updates.len() ==> (#[trigger] updates[k]).filtered_update == (
            FilteredUpdateType::Account { message: m, data_slices: filter.data_slices() }),
        updates.len() <= 1,
{
    let f = filter@;
    let passes = |a: AccountsModel| a.passes(m@.content().info);
    let names = filter::matching(f.accounts, passes);
    let what = FilteredUpdateType::Account { message: m, data_slices: filter.data_slices() };
    filter::law_names_apart(config);
    lemma_updates_with(updates, names, what, Seq::empty());
    assert forall|i: int|
        #![trigger config.accounts@[i]]
        0 <= i < config.accounts@.len() implies {
        let c = config.accounts@[i].1;
        let info = m@.content().info;
        under(updates, what, config.accounts@[i].0@) <==> {
            &&& c.account@.len() > 0 ==> lists(c.account@, info.pubkey)
            &&& c.owner@.len() > 0 ==> lists(c.owner@, info.owner)
            &&& forall|j: int|
                0 <= j < c.filters@.len() && !((#[trigger] c.filters@[j]) is DataSize
                    && sized_later(c.filters@, j)) ==> meets(c.filters@[j], info)
            &&& c.nonempty_txn_signature matches Some(v) ==> v == (info.txn_signature is Some)
        }
    } by {
        let name = config.accounts@[i].0@;
        assert(f.accounts[i] == (name, filter::accounts_model(config.accounts@[i].1)));
        lemma_under(f.accounts, passes, i);
        lemma_updates_with(updates, names, what, name);
        law_accounts_model(config.accounts@[i].1, m@.content().info);
    }
}

// ---------------------------------------------------------------------------------------------
// Slots, entries and block metadata
// ---------------------------------------------------------------------------------------------

/// A slot update comes under the name of a filter exactly where its status is processed, confirmed or
/// final, or statuses in between are asked for, and, where the filter goes by commitment, the status is the
/// one of the commitment.
pub proof fn law_slot_passes(
    config: ConfigFilter,
    filter: &Filter,
    updates: Seq<FilteredUpdate>,
    m: &MessageSlot,
    commitment: CommitmentLevel,
)
    requires
        config.fits(),
        filter@ == filter::filter_model(config),
        filter.makes(updates, MessageRef::Slot(m), commitment),
    ensures
        forall|i: int|
            #![trigger config.slots@[i]]
            0 <= i < config.slots@.len() ==> {
                let c = config.slots@[i].1;
                let status = m@.status();
                under(updates, FilteredUpdateType::Slot { message: m }, config.slots@[i].0@) <==> {
                    &&& c.interslot_updates == Some(true) || status == SlotStatus::SlotProcessed
                        || status == SlotStatus::SlotConfirmed || status
                        == SlotStatus::SlotFinalized
                    &&& c.filter_by_commitment == Some(true) ==> match commitment {
                        CommitmentLevel::Processed => status == SlotStatus::SlotProcessed,
                        CommitmentLevel::Confirmed => status == SlotStatus::SlotConfirmed,
                        CommitmentLevel::Finalized => status == SlotStatus::SlotFinalized,
                    }
                }
            },
        forall|k: int|
            0 <= k < updates.len() ==> (#[trigger] updates[k]).filtered_update == (
            FilteredUpdateType::Slot { message: m }),
        updates.len() <= 1,
{
    let f = filter@;
    let passes = |s: FilterSlotsInner| s.passes(m@.status(), commitment);
    let names = filter::matching(f.slots, passes);
    let what = FilteredUpdateType::Slot { message: m };
    filter::law_names_apart(config);
    lemma_updates_with(updates, names, what, Seq::empty());
    assert forall|i: int|
        #![trigger config.slots@[i]]
        0 <= i < config.slots@.len() implies {
        let c = config.slots@[i].1;
        let status = m@.status();
        under(updates, what, config.slots@[i].0@) <==> {
            &&& c.interslot_updates == Some(true) || status == SlotStatus::SlotProcessed || status
                == SlotStatus::SlotConfirmed || status == SlotStatus::SlotFinalized
            &&& c.filter_by_commitment == Some(true) ==> match commitment {
                CommitmentLevel::Processed => status == SlotStatus::SlotProcessed,
                CommitmentLevel::Confirmed => status == SlotStatus::SlotConfirmed,
                CommitmentLevel::Finalized => status == SlotStatus::SlotFinalized,
            }
        }
    } by {
        let name = config.slots@[i].0@;
        assert(f.slots[i] == (name, filter::slots_model(config.slots@[i].1)));
        lemma_under(f.slots, passes, i);
        lemma_updates_with(updates, names, what, name);
    }
}

/// An entry, and the metadata of a block, come under the names of all filters for them, and where there is
/// none, not at all.
pub proof fn law_all_pass(
    config: ConfigFilter,
    filter: &Filter,
    entries: Seq<FilteredUpdate>,
    entry: &MessageEntry,
    metas: Seq<FilteredUpdate>,
    meta: &MessageBlockMeta,
    commitment: CommitmentLevel,
)
    requires
        filter@ == filter::filter_model(config),
        filter.makes(entries, MessageRef::Entry(entry), commitment),
        filter.makes(metas, MessageRef::BlockMeta(meta), commitment),
    ensures
        entries.len() == if config.entries@.len() == 0 {
            0nat
        } else {
            1nat
        },
        metas.len() == if config.blocks_meta@.len() == 0 {
            0nat
        } else {
            1nat
        },
        config.entries@.len() > 0 ==> {
            let names = collections::names(entries[0].filters);
            &&& entries[0].filtered_update == (FilteredUpdateType::Entry { message: entry })
            &&& names.len() == config.entries@.len()
            &&& forall|i: int|
                0 <= i < names.len() ==> #[trigger] names[i] == config.entries@[i]@
        },
        config.blocks_meta@.len() > 0 ==> {
            let names = collections::names(metas[0].filters);
            &&& metas[0].filtered_update == (FilteredUpdateType::BlockMeta { message: meta })
            &&& names.len() == config.blocks_meta@.len()
            &&& forall|i: int|
                0 <= i < names.len() ==> #[trigger] names[i] == config.blocks_meta@[i]@
        },
{
}

// ---------------------------------------------------------------------------------------------
// Blocks
// ---------------------------------------------------------------------------------------------

/// The indices of items that pass are, in order, those of all items that pass and of no others.
pub proof fn law_passing<M>(items: Seq<M>, passes: spec_fn(M) -> bool)
    requires
        items.len() <= usize::MAX,
    ensures
        ({
            let all = filter::passing(items, passes);
            &&& forall|j: int|
                0 <= j < all.len() ==> (#[trigger] all[j]) < items.len() && passes(
                    items[all[j] as int],
                )
            &&& forall|j: int, k: int|
                0 <= j < k < all.len() ==> (#[trigger] all[j]) < (#[trigger] all[k])
            &&& forall|i: int|
                #![trigger items[i]]
                0 <= i < items.len() && passes(items[i]) ==> all.contains(i as usize)
        }),
    decreases items.len(),
{
    if items.len() > 0 {
        let rest = items.drop_last();
        let n = items.len() - 1;
        law_passing(rest, passes);
        let before = filter::passing(rest, passes);
        let all = filter::passing(items, passes);
        assert forall|j: int| 0 <= j < all.len() implies (#[trigger] all[j]) < items.len() && passes(
            items[all[j] as int],
        ) by {
            if j < before.len() {
                assert(all[j] == before[j]);
                assert(rest[before[j] as int] == items[before[j] as int]);
            }
        }
        assert forall|j: int, k: int| 0 <= j < k < all.len() implies (#[trigger] all[j])
            < (#[trigger] all[k]) by {
            assert(all[j] == before[j]);
            if k < before.len() {
                assert(all[k] == before[k]);
            }
        }
        assert forall|i: int|
            #![trigger items[i]]
            0 <= i < items.len() && passes(items[i]) implies all.contains(i as usize) by {
            if i < n {
                assert(rest[i] == items[i]);
                let j = choose|j: int| 0 <= j < before.len() && before[j] == i as usize;
                assert(all[j] == i as usize);
            } else {
                assert(all[before.len() as int] == i as usize);
            }
        }
    }
}

/// Of a block, each filter makes one update, under its own name. It holds the transactions unless they are
/// declined, the accounts only where they are asked for, and the entries likewise; of transactions and
/// accounts those that touch an account to include, where any is given.
pub proof fn law_block_passes(
    config: ConfigFilter,
    filter: &Filter,
    updates: Seq<FilteredUpdate>,
    m: &MessageBlock,
    commitment: CommitmentLevel,
    i: int,
)
    requires
        filter@ == filter::filter_model(config),
        filter.makes(updates, MessageRef::Block(m), commitment),
        0 <= i < config.blocks@.len(),
        m@.accounts.len() <= usize::MAX,
        m@.transactions.len() <= usize::MAX,
    ensures
        updates.len() == config.blocks@.len(),
        collections::names(updates[i].filters).len() == 1,
        collections::names(updates[i].filters)[0] == config.blocks@[i].0@,
        updates[i].filtered_update matches FilteredUpdateType::Block {
            message,
            accounts,
            transactions,
            entries,
            data_slices,
        } && {
            let c = config.blocks@[i].1;
            &&& message == m
            &&& data_slices == filter.data_slices()
            &&& entries <==> c.include_entries == Some(true)
            &&& forall|j: int, k: int|
                0 <= j < k < accounts@.len() ==> (#[trigger] accounts@[j]) < (
                #[trigger] accounts@[k])
            &&& forall|j: int, k: int|
                0 <= j < k < transactions@.len() ==> (#[trigger] transactions@[j]) < (
                #[trigger] transactions@[k])
            &&& forall|j: int|
                0 <= j < accounts@.len() ==> (#[trigger] accounts@[j]) < m@.accounts.len()
            &&& forall|j: int|
                0 <= j < transactions@.len() ==> (#[trigger] transactions@[j])
                    < m@.transactions.len()
            &&& forall|x: int|
                #![trigger m@.accounts[x]]
                0 <= x < m@.accounts.len() ==> (accounts@.contains(x as usize) <==> {
                    &&& c.include_accounts == Some(true)
                    &&& c.account_include@.len() > 0 ==> lists(
                        c.account_include@,
                        m@.accounts[x].content().info.pubkey,
                    )
                })
            &&& forall|x: int|
                #![trigger m@.transactions[x]]
                0 <= x < m@.transactions.len() ==> (transactions@.contains(x as usize) <==> {
                    &&& c.include_transactions != Some(false)
                    &&& c.account_include@.len() > 0 ==> touches(
                        m@.transactions[x].account_keys(),
                        c.account_include@,
                    )
                })
        },
{
    let c = config.blocks@[i].1;
    let model = filter::blocks_model(c);
    assert(filter@.blocks[i] == (config.blocks@[i].0@, model));
    assert(filter::block_update(updates[i], filter@.blocks[i], m, filter.data_slices()));
    lemma_listed(c.account_include@);
    let by_key = |a: MessageAccountView|
        filter::among(model.account_include, a.content().info.pubkey);
    let by_keys = |t: MessageTransactionView|
        model.account_include == Set::<Seq<u8>>::empty() || !model.account_include.disjoint(
            t.account_keys(),
        );
    law_passing(m@.accounts, by_key);
    law_passing(m@.transactions, by_keys);
    let accounts = model.accounts(m@.accounts);
    let transactions = model.transactions(m@.transactions);
    assert forall|x: int|
        #![trigger m@.accounts[x]]
        0 <= x < m@.accounts.len() && accounts.contains(x as usize) implies by_key(
        m@.accounts[x],
    ) by {
        let j = choose|j: int| 0 <= j < accounts.len() && accounts[j] == x as usize;
        assert(accounts[j] < m@.accounts.len());
    }
    assert forall|x: int|
        #![trigger m@.transactions[x]]
        0 <= x < m@.transactions.len() implies (by_keys(m@.transactions[x]) <==> (
    c.account_include@.len() > 0 ==> touches(
        m@.transactions[x].account_keys(),
        c.account_include@,
    ))) by {
        let keys = m@.transactions[x].account_keys();
        if c.account_include@.len() > 0 {
            if !model.account_include.disjoint(keys) {
                let k = choose|k: Seq<u8>| model.account_include.contains(k) && keys.contains(k);
                assert(model.account_include.contains(k));
                assert(lists(c.account_include@, k));
            }
            if touches(keys, c.account_include@) {
                let a = choose|a: int|
                    0 <= a < c.account_include@.len() && keys.contains(
                        (#[trigger] c.account_include@[a])@,
                    );
                assert(lists(c.account_include@, c.account_include@[a]@));
                assert(model.account_include.contains(c.account_include@[a]@));
            }
        }
    }
    assert forall|x: int|
        #![trigger m@.transactions[x]]
        0 <= x < m@.transactions.len() && transactions.contains(x as usize) implies by_keys(
        m@.transactions[x],
    ) by {
        let j = choose|j: int| 0 <= j < transactions.len() && transactions[j] == x as usize;
        assert(transactions[j] < m@.transactions.len());
    }
    assert forall|x: int|
        #![trigger m@.accounts[x]]
        0 <= x < m@.accounts.len() implies (by_key(m@.accounts[x]) <==> (c.account_include@.len() > 0
        ==> lists(c.account_include@, m@.accounts[x].content().info.pubkey))) by {
        let key = m@.accounts[x].content().info.pubkey;
        assert(model.account_include.contains(key) <==> lists(c.account_include@, key));
    }
    if c.include_accounts == Some(true) {
        assert(accounts == filter::passing(m@.accounts, by_key));
    }
    if c.include_transactions != Some(false) {
        assert(transactions == filter::passing(m@.transactions, by_keys));
    }
    assert forall|x: int|
        #![trigger m@.accounts[x]]
        0 <= x < m@.accounts.len() implies (accounts.contains(x as usize) <==> c.include_accounts
        == Some(true) && by_key(m@.accounts[x])) by {}
    assert forall|x: int|
        #![trigger m@.transactions[x]]
        0 <= x < m@.transactions.len() implies (transactions.contains(x as usize)
        <==> c.include_transactions != Some(false) && by_keys(m@.transactions[x])) by {}
    if let FilteredUpdateType::Block { accounts: a, transactions: t, .. } =
        updates[i].filtered_update {
        assert(a@ == accounts);
        assert(t@ == transactions);
        assert forall|x: int|
            #![trigger t@.contains(x as usize)]
            0 <= x < m@.transactions.len() implies (t@.contains(x as usize) <==> {
            &&& c.include_transactions != Some(false)
            &&& c.account_include@.len() > 0 ==> touches(
                m@.transactions[x].account_keys(),
                c.account_include@,
            )
        }) by {
            assert(t@.contains(x as usize) <==> c.include_transactions != Some(false) && by_keys(
                m@.transactions[x],
            ));
            assert(by_keys(m@.transactions[x]) <==> (c.account_include@.len() > 0 ==> touches(
                m@.transactions[x].account_keys(),
                c.account_include@,
            )));
        }
    }
}

// ---------------------------------------------------------------------------------------------
// Parts of the data
// ---------------------------------------------------------------------------------------------

/// A part is asked for by where it starts and how long it is.
pub proof fn law_slices_model(configs: Seq<ConfigFilterAccountsDataSlice>, i: int)
    requires
        0 <= i < configs.len(),
    ensures
        filter::slices_model(configs).len() == configs.len(),
        filter::slices_model(configs)[i].0 == configs[i].offset,
        filter::slices_model(configs)[i].1 - filter::slices_model(configs)[i].0
            == configs[i].length,
{
}

/// One more part that is asked for comes behind those that are passed already, where the data reaches that
/// far, and changes nothing otherwise.
pub proof fn law_more_slices(slices: Seq<(nat, nat)>, start: nat, end: nat, data: Seq<u8>)
    requires
        slices.len() > 0,
        start <= end,
    ensures
        filter::slice_of(slices.push((start, end)), data) == filter::slice_of(slices, data)
            + if end <= data.len() {
            data.subrange(start as int, end as int)
        } else {
            Seq::<u8>::empty()
        },
{
    assert(slices.push((start, end)).drop_last() =~= slices);
    if end > data.len() {
        assert(filter::slice_of(slices, data) + Seq::<u8>::empty() =~= filter::slice_of(
            slices,
            data,
        ));
    }
}

/// The data is that of a token account where it says that it was set up, at byte 108, and is as long as
/// one, or longer and marked as one behind that, at byte 165. What is as long as an account of several
/// signers is none.
pub proof fn law_token_account(data: Seq<u8>)
    ensures
        filter::token_account(data) <==> {
            &&& data.len() >= 165
            &&& data[108] != 0
            &&& data.len() != 165 ==> data.len() != 355 && data[165] == 2
        },
{
}

/// What is asked for is processed where nothing else is said.
pub proof fn law_commitment(config: ConfigFilter)
    ensures
        config.commitment matches Some(c) ==> filter::filter_model(config).commitment == c,
        config.commitment is None ==> filter::filter_model(config).commitment
            == ConfigFilterCommitment::Processed,
{
}

} // verus!
