//! Filters: which updates pass, under which names, and what of them.
use prost::Message as _;
use richat::config::{
    ConfigFilter, ConfigFilterAccounts, ConfigFilterAccountsDataSlice, ConfigFilterAccountsFilter,
    ConfigFilterAccountsFilterLamports, ConfigFilterBlocks, ConfigFilterCommitment,
    ConfigFilterSlots, ConfigFilterTransactions,
};
use richat::filter::{Filter, FilterAccountDataSlices, FilteredUpdateType};
use richat::geyser::CommitmentLevel;
use richat::message::{Message, MessageParserEncoding};
use richat::pubkey::{Pubkey, Signature};
use yellowstone_grpc_proto::geyser as proto;
use yellowstone_grpc_proto::geyser::subscribe_update::UpdateOneof;
use yellowstone_grpc_proto::solana::storage::confirmed_block;

const PARSERS: [MessageParserEncoding; 2] =
    [MessageParserEncoding::Limited, MessageParserEncoding::Prost];

fn encoded(update: UpdateOneof) -> Vec<u8> {
    proto::SubscribeUpdate {
        filters: vec![],
        update_oneof: Some(update),
        created_at: Some(prost_types::Timestamp { seconds: 1_757_500_000, nanos: 42 }),
    }
    .encode_to_vec()
}

fn parse(update: UpdateOneof, parser: MessageParserEncoding) -> Message {
    Message::parse(encoded(update), parser).expect("message")
}

fn key(n: u8) -> Pubkey {
    Pubkey { bytes: [n; 32] }
}

/// The names that the message passes under.
fn names(config: &ConfigFilter, message: &Message, commitment: CommitmentLevel) -> Vec<String> {
    let filter = Filter::new(config);
    let updates = filter.get_updates(message, commitment);
    let mut names = Vec::new();
    for update in updates.as_slice() {
        for i in 0..update.filters.len() {
            names.push(update.filters.get(i).expect("name").to_owned());
        }
    }
    names
}

fn account(change: fn(&mut proto::SubscribeUpdateAccountInfo)) -> UpdateOneof {
    let mut info = proto::SubscribeUpdateAccountInfo {
        pubkey: vec![1; 32],
        lamports: 100,
        owner: vec![2; 32],
        executable: false,
        rent_epoch: 3,
        data: (0..40).collect(),
        write_version: 12,
        txn_signature: Some(vec![4; 64]),
    };
    change(&mut info);
    UpdateOneof::Account(proto::SubscribeUpdateAccount {
        account: Some(info),
        slot: 7,
        is_startup: false,
    })
}

fn accounts(filter: ConfigFilterAccounts) -> ConfigFilter {
    let mut config = ConfigFilter::none();
    config.accounts.push(("accounts".to_owned(), filter));
    config
}

fn any_account() -> ConfigFilterAccounts {
    ConfigFilterAccounts {
        account: vec![],
        owner: vec![],
        filters: vec![],
        nonempty_txn_signature: None,
    }
}

fn with_filters(filters: Vec<ConfigFilterAccountsFilter>) -> ConfigFilter {
    accounts(ConfigFilterAccounts { filters, ..any_account() })
}

fn account_passes(config: &ConfigFilter, update: UpdateOneof) -> bool {
    let passes: Vec<bool> = PARSERS
        .iter()
        .map(|parser| {
            let message = parse(update.clone(), *parser);
            !names(config, &message, CommitmentLevel::Processed).is_empty()
        })
        .collect();
    assert_eq!(passes[0], passes[1]);
    passes[0]
}

#[test]
fn accounts_by_key_owner_and_signature() {
    let plain = || account(|_| {});
    assert!(account_passes(&accounts(any_account()), plain()));
    for (n, passes) in [(1, true), (2, false)] {
        let config = accounts(ConfigFilterAccounts { account: vec![key(9), key(n)], ..any_account() });
        assert_eq!(account_passes(&config, plain()), passes);
    }
    for (n, passes) in [(2, true), (1, false)] {
        let config = accounts(ConfigFilterAccounts { owner: vec![key(n)], ..any_account() });
        assert_eq!(account_passes(&config, plain()), passes);
    }
    for wanted in [true, false] {
        let config =
            accounts(ConfigFilterAccounts { nonempty_txn_signature: Some(wanted), ..any_account() });
        assert_eq!(account_passes(&config, plain()), wanted);
        assert_eq!(account_passes(&config, account(|a| a.txn_signature = None)), !wanted);
    }
}

#[test]
fn accounts_by_data_and_lamports() {
    let plain = || account(|_| {});
    let bytes = |offset: usize, data: Vec<u8>| ConfigFilterAccountsFilter::Bytes { offset, data };
    assert!(account_passes(&with_filters(vec![bytes(3, vec![3, 4, 5])]), plain()));
    assert!(!account_passes(&with_filters(vec![bytes(3, vec![3, 4, 6])]), plain()));
    assert!(account_passes(&with_filters(vec![bytes(38, vec![38, 39])]), plain()));
    assert!(!account_passes(&with_filters(vec![bytes(39, vec![39, 40])]), plain()));
    assert!(!account_passes(
        &with_filters(vec![bytes(0, vec![0]), bytes(1, vec![2])]),
        plain()
    ));
    let size = |n| with_filters(vec![ConfigFilterAccountsFilter::DataSize(n)]);
    assert!(account_passes(&size(40), plain()));
    assert!(!account_passes(&size(41), plain()));
    for (lamports, passes) in [
        (ConfigFilterAccountsFilterLamports::Eq(100), true),
        (ConfigFilterAccountsFilterLamports::Eq(99), false),
        (ConfigFilterAccountsFilterLamports::Ne(100), false),
        (ConfigFilterAccountsFilterLamports::Ne(99), true),
        (ConfigFilterAccountsFilterLamports::Lt(101), true),
        (ConfigFilterAccountsFilterLamports::Lt(100), false),
        (ConfigFilterAccountsFilterLamports::Gt(99), true),
        (ConfigFilterAccountsFilterLamports::Gt(100), false),
    ] {
        let config = with_filters(vec![ConfigFilterAccountsFilter::Lamports(lamports)]);
        assert_eq!(account_passes(&config, plain()), passes);
    }
}

#[test]
fn token_accounts() {
    let config = with_filters(vec![ConfigFilterAccountsFilter::TokenAccountState]);
    let token = account(|a| {
        a.data = vec![0; 165];
        a.data[108] = 1;
    });
    assert!(account_passes(&config, token));
    // an account that was not initialized is none
    assert!(!account_passes(&config, account(|a| a.data = vec![0; 165])));
    assert!(!account_passes(&config, account(|_| {})));
}

#[test]
fn data_slices_cut_the_data() {
    let slice = |offset, length| ConfigFilterAccountsDataSlice { offset, length };
    let slices = FilterAccountDataSlices::new(&vec![slice(1, 2), slice(4, 3), slice(8, 5)]);
    let source: Vec<u8> = (0..10).collect();
    // what reaches beyond the end is left out
    assert_eq!(slices.get_slice(&source), vec![1, 2, 4, 5, 6]);
    assert_eq!(FilterAccountDataSlices::none().get_slice(&source), source);
    assert!(FilterAccountDataSlices::new(&vec![]).is_empty());

    for parser in PARSERS {
        let mut config = accounts(any_account());
        config.accounts_data_slice = vec![slice(1, 2), slice(4, 3)];
        let filter = Filter::new(&config);
        let message = parse(account(|_| {}), parser);
        let updates = filter.get_updates(&message, CommitmentLevel::Processed);
        let update = proto::SubscribeUpdate::decode(updates.as_slice()[0].encode_to_vec().as_slice())
            .expect("update");
        assert_eq!(update.filters, ["accounts"]);
        match update.update_oneof {
            Some(UpdateOneof::Account(m)) => {
                let info = m.account.expect("account");
                assert_eq!(info.data, vec![1, 2, 4, 5, 6]);
                assert_eq!(info.txn_signature, Some(vec![4; 64]));
                assert_eq!((info.lamports, info.rent_epoch, info.write_version), (100, 3, 12));
                assert_eq!(m.slot, 7);
            }
            other => panic!("unexpected {other:?}"),
        }
    }
}

#[test]
fn slots_by_commitment_and_between() {
    let slot = |status: proto::SlotStatus| {
        UpdateOneof::Slot(proto::SubscribeUpdateSlot {
            slot: 7,
            parent: Some(6),
            status: status as i32,
            dead_error: None,
        })
    };
    let passes = |filter: ConfigFilterSlots, status: proto::SlotStatus| {
        let mut config = ConfigFilter::none();
        config.slots.push(("slots".to_owned(), filter));
        let passes: Vec<bool> = PARSERS
            .iter()
            .map(|parser| {
                let message = parse(slot(status), *parser);
                !names(&config, &message, CommitmentLevel::Confirmed).is_empty()
            })
            .collect();
        assert_eq!(passes[0], passes[1]);
        passes[0]
    };
    let all = ConfigFilterSlots { filter_by_commitment: None, interslot_updates: None };
    assert!(passes(all, proto::SlotStatus::SlotProcessed));
    assert!(passes(all, proto::SlotStatus::SlotFinalized));
    assert!(!passes(all, proto::SlotStatus::SlotCreatedBank));
    let between = ConfigFilterSlots { interslot_updates: Some(true), ..all };
    assert!(passes(between, proto::SlotStatus::SlotCreatedBank));
    assert!(passes(between, proto::SlotStatus::SlotDead));
    let committed = ConfigFilterSlots { filter_by_commitment: Some(true), ..between };
    assert!(passes(committed, proto::SlotStatus::SlotConfirmed));
    assert!(!passes(committed, proto::SlotStatus::SlotProcessed));
}

fn transaction_info(is_vote: bool, failed: bool) -> proto::SubscribeUpdateTransactionInfo {
    proto::SubscribeUpdateTransactionInfo {
        signature: vec![4; 64],
        is_vote,
        transaction: Some(confirmed_block::Transaction {
            signatures: vec![vec![4; 64]],
            message: Some(confirmed_block::Message {
                account_keys: vec![vec![1; 32], vec![2; 32]],
                ..Default::default()
            }),
        }),
        meta: Some(confirmed_block::TransactionStatusMeta {
            err: failed.then_some(confirmed_block::TransactionError { err: vec![8] }),
            loaded_writable_addresses: vec![vec![3; 32]],
            loaded_readonly_addresses: vec![vec![5; 32]],
            ..Default::default()
        }),
        index: 9,
    }
}

fn any_transaction() -> ConfigFilterTransactions {
    ConfigFilterTransactions {
        vote: None,
        failed: None,
        signature: None,
        account_include: vec![],
        account_exclude: vec![],
        account_required: vec![],
    }
}

fn transaction_passes(filter: ConfigFilterTransactions, is_vote: bool, failed: bool) -> bool {
    let mut config = ConfigFilter::none();
    config.transactions.push(("transactions".to_owned(), filter));
    let update = UpdateOneof::Transaction(proto::SubscribeUpdateTransaction {
        transaction: Some(transaction_info(is_vote, failed)),
        slot: 7,
    });
    let passes: Vec<bool> = PARSERS
        .iter()
        .map(|parser| {
            let message = parse(update.clone(), *parser);
            !names(&config, &message, CommitmentLevel::Processed).is_empty()
        })
        .collect();
    assert_eq!(passes[0], passes[1]);
    passes[0]
}

#[test]
fn transactions_by_kind_signature_and_accounts() {
    assert!(transaction_passes(any_transaction(), false, false));
    for wanted in [true, false] {
        for (vote, failed) in [(true, true), (true, false), (false, true), (false, false)] {
            let filter = ConfigFilterTransactions { vote: Some(wanted), ..any_transaction() };
            assert_eq!(transaction_passes(filter, vote, failed), vote == wanted);
            let filter = ConfigFilterTransactions { failed: Some(wanted), ..any_transaction() };
            assert_eq!(transaction_passes(filter, vote, failed), failed == wanted);
        }
    }
    for (n, passes) in [(4, true), (5, false)] {
        let signature = Some(Signature { bytes: [n; 64] });
        let filter = ConfigFilterTransactions { signature, ..any_transaction() };
        assert_eq!(transaction_passes(filter, false, false), passes);
    }
    for n in [1, 2, 3, 5] {
        let filter =
            ConfigFilterTransactions { account_include: vec![key(9), key(n)], ..any_transaction() };
        assert!(transaction_passes(filter, false, false));
        let filter = ConfigFilterTransactions { account_exclude: vec![key(n)], ..any_transaction() };
        assert!(!transaction_passes(filter, false, false));
        let filter = ConfigFilterTransactions { account_required: vec![key(n)], ..any_transaction() };
        assert!(transaction_passes(filter, false, false));
    }
    let filter = ConfigFilterTransactions { account_include: vec![key(9)], ..any_transaction() };
    assert!(!transaction_passes(filter, false, false));
    let filter =
        ConfigFilterTransactions { account_required: vec![key(1), key(9)], ..any_transaction() };
    assert!(!transaction_passes(filter, false, false));
}

#[test]
fn a_transaction_passes_as_itself_and_as_a_status() {
    for parser in PARSERS {
        let mut config = ConfigFilter::none();
        config.transactions.push(("a".to_owned(), any_transaction()));
        config.transactions_status.push(("b".to_owned(), any_transaction()));
        let filter = Filter::new(&config);
        let message = parse(
            UpdateOneof::Transaction(proto::SubscribeUpdateTransaction {
                transaction: Some(transaction_info(true, true)),
                slot: 7,
            }),
            parser,
        );
        let updates = filter.get_updates(&message, CommitmentLevel::Processed);
        assert_eq!(updates.as_slice().len(), 2);
        let first =
            proto::SubscribeUpdate::decode(updates.as_slice()[0].encode_to_vec().as_slice()).unwrap();
        match first.update_oneof {
            Some(UpdateOneof::Transaction(m)) => {
                assert_eq!(m.transaction, Some(transaction_info(true, true)));
                assert_eq!(m.slot, 7);
            }
            other => panic!("unexpected {other:?}"),
        }
        let second =
            proto::SubscribeUpdate::decode(updates.as_slice()[1].encode_to_vec().as_slice()).unwrap();
        assert_eq!(second.filters, ["b"]);
        match second.update_oneof {
            Some(UpdateOneof::TransactionStatus(m)) => {
                assert_eq!((m.slot, m.index, m.is_vote), (7, 9, true));
                assert_eq!(m.signature, vec![4; 64]);
                assert_eq!(m.err, Some(confirmed_block::TransactionError { err: vec![8] }));
            }
            other => panic!("unexpected {other:?}"),
        }
    }
}

#[test]
fn entries_and_block_metadata_pass_under_all_names() {
    let mut config = ConfigFilter::none();
    config.entries = vec!["x".to_owned(), "y".to_owned()];
    config.blocks_meta = vec!["z".to_owned()];
    for parser in PARSERS {
        let entry = parse(
            UpdateOneof::Entry(proto::SubscribeUpdateEntry {
                slot: 7,
                hash: vec![1; 32],
                ..Default::default()
            }),
            parser,
        );
        let mut found = names(&config, &entry, CommitmentLevel::Processed);
        found.sort();
        assert_eq!(found, ["x", "y"]);
        let meta = parse(
            UpdateOneof::BlockMeta(proto::SubscribeUpdateBlockMeta {
                slot: 7,
                block_height: Some(confirmed_block::BlockHeight { block_height: 5 }),
                rewards: Some(confirmed_block::Rewards::default()),
                ..Default::default()
            }),
            parser,
        );
        assert_eq!(names(&config, &meta, CommitmentLevel::Processed), ["z"]);
    }
    assert!(!Filter::new(&config).contains_blocks());
    assert_eq!(Filter::new(&config).commitment(), ConfigFilterCommitment::Processed);
    assert_eq!(Filter::default().commitment(), ConfigFilterCommitment::Processed);
}

fn block() -> proto::SubscribeUpdateBlock {
    let info = |n: u8| proto::SubscribeUpdateAccountInfo {
        pubkey: vec![n; 32],
        owner: vec![2; 32],
        data: vec![n; 10],
        write_version: 1,
        ..Default::default()
    };
    proto::SubscribeUpdateBlock {
        slot: 7,
        blockhash: "hash".to_owned(),
        rewards: Some(confirmed_block::Rewards::default()),
        block_time: Some(confirmed_block::UnixTimestamp { timestamp: 1_757_500_000 }),
        block_height: Some(confirmed_block::BlockHeight { block_height: 5 }),
        parent_slot: 6,
        parent_blockhash: "parent".to_owned(),
        executed_transaction_count: 1,
        transactions: vec![transaction_info(false, false)],
        updated_account_count: 2,
        accounts: vec![info(1), info(9)],
        entries_count: 1,
        entries: vec![proto::SubscribeUpdateEntry {
            slot: 7,
            hash: vec![1; 32],
            ..Default::default()
        }],
    }
}

fn block_update(filter: ConfigFilterBlocks) -> Vec<proto::SubscribeUpdateBlock> {
    let mut config = ConfigFilter::none();
    config.blocks.push(("blocks".to_owned(), filter));
    let filter = Filter::new(&config);
    assert!(filter.contains_blocks());
    let message = parse(UpdateOneof::Block(block()), MessageParserEncoding::Prost);
    let updates = filter.get_updates(&message, CommitmentLevel::Processed);
    updates
        .as_slice()
        .iter()
        .map(|update| {
            assert!(matches!(update.filtered_update, FilteredUpdateType::Block { .. }));
            let update = proto::SubscribeUpdate::decode(update.encode_to_vec().as_slice()).unwrap();
            match update.update_oneof {
                Some(UpdateOneof::Block(block)) => block,
                other => panic!("unexpected {other:?}"),
            }
        })
        .collect()
}

#[test]
fn blocks_by_parts_and_accounts() {
    let all = || ConfigFilterBlocks {
        account_include: vec![],
        include_transactions: Some(true),
        include_accounts: Some(true),
        include_entries: Some(true),
    };
    assert_eq!(block_update(all()), vec![block()]);
    let shown = block_update(ConfigFilterBlocks {
        include_transactions: Some(false),
        include_accounts: None,
        include_entries: None,
        ..all()
    });
    assert_eq!(shown.len(), 1);
    assert!(shown[0].transactions.is_empty());
    assert!(shown[0].accounts.is_empty());
    assert!(shown[0].entries.is_empty());
    assert_eq!((shown[0].entries_count, shown[0].updated_account_count), (1, 2));
    let shown = block_update(ConfigFilterBlocks { account_include: vec![key(9)], ..all() });
    assert!(shown[0].transactions.is_empty());
    assert_eq!(shown[0].accounts.len(), 1);
    assert_eq!(shown[0].accounts[0].pubkey, vec![9; 32]);
}

#[test]
fn nothing_passes_without_filters() {
    for parser in PARSERS {
        let message = parse(account(|_| {}), parser);
        assert!(names(&ConfigFilter::none(), &message, CommitmentLevel::Processed).is_empty());
        let filter = Filter::default();
        assert!(filter.get_updates(&message, CommitmentLevel::Processed).as_slice().is_empty());
    }
}

#[test]
fn each_name_comes_once_in_an_update() {
    let any = || ConfigFilterAccounts {
        account: Vec::new(),
        owner: Vec::new(),
        filters: Vec::new(),
        nonempty_txn_signature: None,
    };
    let mut config = ConfigFilter::none();
    for name in ["b", "a", "c"] {
        config.accounts.push((name.to_owned(), any()));
    }
    for parser in [MessageParserEncoding::Limited, MessageParserEncoding::Prost] {
        let message = parse(account(|_| {}), parser);
        let mut names = names(&config, &message, CommitmentLevel::Processed);
        assert_eq!(names.len(), 3);
        names.sort();
        assert_eq!(names, ["a", "b", "c"]);
    }
}
