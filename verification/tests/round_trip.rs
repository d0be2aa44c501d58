//! Messages and updates, encoded and read again.
use prost::Message as _;
use richat::codec::Timestamp;
use richat::config::{
    ConfigFilter, ConfigFilterAccounts, ConfigFilterBlocks, ConfigFilterSlots,
    ConfigFilterTransactions,
};
use richat::convert::{encode_again, mismatch_text, verify_encoding, verify_geyser, Verdict};
use richat::filter::{Filter, FilterAccountDataSlices, FilteredUpdateType};
use richat::geyser::{CommitmentLevel, SubscribeUpdateAccountInfo, SubscribeUpdateEntry};
use richat::message::{Message, MessageParseError, MessageParserEncoding};
use richat::plugin::{LoadedAddresses, ReplicaDeshredTransactionInfo};
use richat::protobuf::{GeyserSlotStatus, ProtobufEncoder, ProtobufMessage};
use richat::readings::Readings;
use richat::richat::UpdateOneofRichat;
use richat::stream::{StreamUpdate, UpdateOneof as Update};
use yellowstone_grpc_proto::geyser as proto;
use yellowstone_grpc_proto::geyser::subscribe_update::UpdateOneof;
use yellowstone_grpc_proto::solana::storage::confirmed_block;

const PARSERS: [MessageParserEncoding; 2] =
    [MessageParserEncoding::Limited, MessageParserEncoding::Prost];

const TIME: Timestamp = Timestamp { seconds: 1_757_500_000, nanos: 42 };

/// A filter that passes all updates.
fn everything() -> Filter {
    let mut config = ConfigFilter::none();
    config.slots.push((
        "s".to_owned(),
        ConfigFilterSlots { filter_by_commitment: None, interslot_updates: Some(true) },
    ));
    config.accounts.push((
        "a".to_owned(),
        ConfigFilterAccounts {
            account: vec![],
            owner: vec![],
            filters: vec![],
            nonempty_txn_signature: None,
        },
    ));
    let transactions = || ConfigFilterTransactions {
        vote: None,
        failed: None,
        signature: None,
        account_include: vec![],
        account_exclude: vec![],
        account_required: vec![],
    };
    config.transactions.push(("t".to_owned(), transactions()));
    config.transactions_status.push(("u".to_owned(), transactions()));
    config.entries.push("e".to_owned());
    config.blocks_meta.push("m".to_owned());
    config.blocks.push((
        "b".to_owned(),
        ConfigFilterBlocks {
            account_include: vec![],
            include_transactions: Some(true),
            include_accounts: Some(true),
            include_entries: Some(true),
        },
    ));
    Filter::new(&config)
}

fn transaction_info() -> proto::SubscribeUpdateTransactionInfo {
    proto::SubscribeUpdateTransactionInfo {
        signature: vec![4; 64],
        is_vote: true,
        transaction: Some(confirmed_block::Transaction {
            signatures: vec![vec![4; 64]],
            message: Some(confirmed_block::Message {
                account_keys: vec![vec![1; 32], vec![2; 32]],
                ..Default::default()
            }),
        }),
        meta: Some(confirmed_block::TransactionStatusMeta {
            err: Some(confirmed_block::TransactionError { err: vec![8, 0, 0, 0] }),
            fee: 5000,
            loaded_writable_addresses: vec![vec![3; 32]],
            ..Default::default()
        }),
        index: 9,
    }
}

fn account_info() -> proto::SubscribeUpdateAccountInfo {
    proto::SubscribeUpdateAccountInfo {
        pubkey: vec![1; 32],
        lamports: 100,
        owner: vec![2; 32],
        executable: true,
        rent_epoch: u64::MAX,
        data: (0..40).collect(),
        write_version: 12,
        txn_signature: Some(vec![4; 64]),
    }
}

fn entry() -> proto::SubscribeUpdateEntry {
    proto::SubscribeUpdateEntry {
        slot: 7,
        index: 1,
        num_hashes: 2,
        hash: vec![1; 32],
        executed_transaction_count: 3,
        starting_transaction_index: 4,
    }
}

fn rewards() -> Option<confirmed_block::Rewards> {
    Some(confirmed_block::Rewards {
        rewards: vec![confirmed_block::Reward { lamports: -3, ..Default::default() }],
        num_partitions: None,
    })
}

fn block() -> proto::SubscribeUpdateBlock {
    proto::SubscribeUpdateBlock {
        slot: 7,
        blockhash: "hash".to_owned(),
        rewards: rewards(),
        block_time: Some(confirmed_block::UnixTimestamp { timestamp: -1 }),
        block_height: Some(confirmed_block::BlockHeight { block_height: 0 }),
        parent_slot: 6,
        parent_blockhash: "parent".to_owned(),
        executed_transaction_count: 2,
        transactions: vec![transaction_info(), transaction_info()],
        updated_account_count: 1,
        accounts: vec![account_info()],
        entries_count: 1,
        entries: vec![entry()],
    }
}

fn updates() -> Vec<UpdateOneof> {
    vec![
        UpdateOneof::Slot(proto::SubscribeUpdateSlot {
            slot: 7,
            parent: Some(0),
            status: proto::SlotStatus::SlotDead as i32,
            dead_error: Some("é".to_owned()),
        }),
        UpdateOneof::Account(proto::SubscribeUpdateAccount {
            account: Some(account_info()),
            slot: 7,
            is_startup: true,
        }),
        UpdateOneof::Transaction(proto::SubscribeUpdateTransaction {
            transaction: Some(transaction_info()),
            slot: 7,
        }),
        UpdateOneof::Entry(entry()),
        UpdateOneof::BlockMeta(proto::SubscribeUpdateBlockMeta {
            slot: 7,
            blockhash: "hash".to_owned(),
            rewards: rewards(),
            block_time: Some(confirmed_block::UnixTimestamp { timestamp: 0 }),
            block_height: Some(confirmed_block::BlockHeight { block_height: 5 }),
            parent_slot: 6,
            parent_blockhash: "parent".to_owned(),
            executed_transaction_count: 2,
            entries_count: 1,
        }),
    ]
}

fn encoded(update: UpdateOneof, filters: Vec<String>) -> Vec<u8> {
    proto::SubscribeUpdate {
        filters,
        update_oneof: Some(update),
        created_at: Some(prost_types::Timestamp { seconds: TIME.seconds, nanos: TIME.nanos }),
    }
    .encode_to_vec()
}

#[test]
fn messages_are_read_back() {
    let filter = everything();
    for parser in PARSERS {
        for update in updates() {
            let name = match update {
                UpdateOneof::Slot(_) => "s",
                UpdateOneof::Account(_) => "a",
                UpdateOneof::Transaction(_) => "t",
                UpdateOneof::Entry(_) => "e",
                _ => "m",
            };
            let message =
                Message::parse(encoded(update.clone(), vec![]), parser).expect("message");
            let passed = filter.get_updates(&message, CommitmentLevel::Processed);
            let bytes = passed.as_slice()[0].encode_to_vec();
            assert_eq!(bytes, encoded(update, vec![name.to_owned()]));
            let again = Message::parse(bytes, parser).expect("message again");
            assert_eq!(again.slot(), message.slot());
            assert_eq!(again.created_at().as_millis(), message.created_at().as_millis());
            let passed = filter.get_updates(&again, CommitmentLevel::Processed);
            assert_eq!(
                passed.as_slice()[0].encode_to_vec(),
                filter.get_updates(&message, CommitmentLevel::Processed).as_slice()[0]
                    .encode_to_vec()
            );
        }
    }
}

#[test]
fn blocks_are_read_back() {
    let all = FilterAccountDataSlices::none();
    let data = encoded(UpdateOneof::Block(block()), vec![]);
    let message = Message::parse(data.clone(), MessageParserEncoding::Prost).expect("block");
    assert!(matches!(
        FilteredUpdateType::from_message(message.as_message_ref(), &all),
        FilteredUpdateType::Block { entries: true, .. }
    ));
    let filter = everything();
    let passed = filter.get_updates(&message, CommitmentLevel::Processed);
    let bytes = passed.as_slice()[0].encode_to_vec();
    assert_eq!(bytes, encoded(UpdateOneof::Block(block()), vec!["b".to_owned()]));
    let again = Message::parse(bytes, MessageParserEncoding::Prost).expect("block again");
    match (&message, &again) {
        (Message::Block(a), Message::Block(b)) => {
            assert_eq!(a.accounts, b.accounts);
            assert_eq!(a.transactions.len(), b.transactions.len());
            for (a, b) in a.transactions.iter().zip(&b.transactions) {
                assert_eq!(a.signature().bytes, b.signature().bytes);
                assert_eq!(
                    a.transaction_meta().unwrap().encoded,
                    b.transaction_meta().unwrap().encoded
                );
            }
            assert_eq!(a.entries.len(), b.entries.len());
            assert_eq!(a.block_meta.block_height(), b.block_meta.block_height());
        }
        _ => panic!("expected blocks"),
    }
}

#[test]
fn stream_updates_are_read_back() {
    for update in updates() {
        let filters = vec!["x".to_owned(), "y".to_owned()];
        let decoded = StreamUpdate::decode(&encoded(update.clone(), filters.clone())).unwrap();
        match decoded {
            StreamUpdate::Geyser { filters: names, update_oneof: Some(decoded), created_at } => {
                assert_eq!(names, filters);
                assert_eq!(created_at, Some(TIME));
                match (update, decoded) {
                    (UpdateOneof::Slot(a), Update::Slot(b)) => {
                        assert_eq!((a.slot, a.parent, a.status), (b.slot, b.parent, b.status));
                        assert_eq!(a.dead_error, b.dead_error);
                    }
                    (UpdateOneof::Account(a), Update::Account(b)) => {
                        assert_eq!((a.slot, a.is_startup), (b.slot, b.is_startup));
                        assert_eq!(a.account.unwrap().data, b.account.unwrap().data);
                    }
                    (UpdateOneof::Transaction(a), Update::Transaction(b)) => {
                        assert_eq!(a.slot, b.slot);
                        let (a, b) = (a.transaction.unwrap(), b.transaction.unwrap());
                        assert_eq!(a.transaction.unwrap().encode_to_vec(), b.transaction.unwrap().encoded);
                        assert_eq!(a.meta.unwrap().encode_to_vec(), b.meta.unwrap().encoded);
                    }
                    (UpdateOneof::Entry(a), Update::Entry(b)) => assert_eq!(a.hash, b.hash),
                    (UpdateOneof::BlockMeta(a), Update::BlockMeta(b)) => {
                        assert_eq!(a.rewards.unwrap().encode_to_vec(), b.rewards.unwrap());
                        assert_eq!(b.block_time, Some(0));
                    }
                    (a, b) => panic!("{a:?} became {b:?}"),
                }
            }
            other => panic!("unexpected {other:?}"),
        }
    }
}

#[test]
fn an_update_is_passed_on_as_it_came() {
    let filter = everything();
    for parser in PARSERS {
        for update in updates() {
            // the time comes first, then another update, which does not count, and a field that is not
            // known comes last
            let plain = encoded(update, vec![]);
            let at = plain.len() - 2 - prost_types::Timestamp { seconds: TIME.seconds, nanos: TIME.nanos }
                .encoded_len();
            let (update, time) = plain.split_at(at);
            let mut data = time.to_vec();
            data.extend_from_slice(&[0x32, 0x00]);
            data.extend_from_slice(update);
            data.extend_from_slice(&[0xfa, 0x01, 0x81, 0x80, 0x00, 0x07]);
            let message = Message::parse(data.clone(), parser).expect("message");
            let passed = filter.get_updates(&message, CommitmentLevel::Processed);
            let out = passed.as_slice()[0].encode_to_vec();
            let before = proto::SubscribeUpdate::decode(data.as_slice()).expect("update");
            let after = proto::SubscribeUpdate::decode(out.as_slice()).expect("update again");
            assert_eq!(after.filters.len(), 1);
            assert_eq!(after.update_oneof, before.update_oneof);
            assert_eq!(after.created_at, before.created_at);
            match StreamUpdate::decode_geyser(&out).expect("update") {
                StreamUpdate::Geyser { filters, update_oneof, created_at } => {
                    assert_eq!(filters, after.filters);
                    assert!(update_oneof.is_some());
                    assert_eq!(created_at, Some(TIME));
                }
                other => panic!("unexpected {other:?}"),
            }
        }
    }
}

#[test]
fn a_status_is_read_back() {
    let filter = everything();
    let update = UpdateOneof::Transaction(proto::SubscribeUpdateTransaction {
        transaction: Some(transaction_info()),
        slot: 7,
    });
    for parser in PARSERS {
        let message = Message::parse(encoded(update.clone(), vec![]), parser).expect("message");
        let passed = filter.get_updates(&message, CommitmentLevel::Processed);
        match StreamUpdate::decode(&passed.as_slice()[1].encode_to_vec()).unwrap() {
            StreamUpdate::Geyser { update_oneof: Some(Update::TransactionStatus(m)), .. } => {
                assert_eq!((m.slot, m.index, m.is_vote), (7, 9, true));
                assert_eq!(m.signature, vec![4; 64]);
                assert_eq!(m.err.unwrap().err, vec![8, 0, 0, 0]);
            }
            other => panic!("unexpected {other:?}"),
        }
    }
}

#[test]
fn what_a_validator_tells_of_is_parsed() {
    let info = account_info();
    let account = SubscribeUpdateAccountInfo {
        pubkey: info.pubkey.clone(),
        lamports: info.lamports,
        owner: info.owner.clone(),
        executable: info.executable,
        rent_epoch: info.rent_epoch,
        data: info.data.clone(),
        write_version: info.write_version,
        txn_signature: info.txn_signature.clone(),
    };
    let told = entry();
    let entry = SubscribeUpdateEntry {
        slot: told.slot,
        index: told.index,
        num_hashes: told.num_hashes,
        hash: told.hash.clone(),
        executed_transaction_count: told.executed_transaction_count,
        starting_transaction_index: told.starting_transaction_index,
    };
    let status = GeyserSlotStatus::Dead("why".to_owned());
    for parser in PARSERS {
        for encoder in [ProtobufEncoder::Prost, ProtobufEncoder::Raw] {
            let data = ProtobufMessage::Account { slot: 7, account: &account }
                .encode_with_timestamp(encoder, TIME);
            match Message::parse(data, parser).expect("account") {
                Message::Account(m) => {
                    assert_eq!((m.slot(), m.lamports(), m.write_version()), (7, 100, 12));
                    assert_eq!(m.data(), info.data.as_slice());
                    assert!(m.executable());
                }
                other => panic!("unexpected {other:?}"),
            }
            let data = ProtobufMessage::Slot { slot: 7, parent: None, status: &status }
                .encode_with_timestamp(encoder, TIME);
            match Message::parse(data, parser).expect("slot") {
                Message::Slot(m) => {
                    assert_eq!((m.slot(), m.parent()), (7, None));
                    assert_eq!(m.status(), status.update_status());
                }
                other => panic!("unexpected {other:?}"),
            }
            let data = ProtobufMessage::Entry { entry: &entry }.encode_with_timestamp(encoder, TIME);
            match Message::parse(data, parser).expect("entry") {
                Message::Entry(m) => {
                    assert_eq!((m.slot(), m.index()), (7, 1));
                    assert_eq!(m.executed_transaction_count(), 3);
                }
                other => panic!("unexpected {other:?}"),
            }
        }
    }
}

#[test]
fn encodings_are_compared() {
    for update in updates().into_iter().chain([UpdateOneof::Block(block())]) {
        let data = encoded(update, vec!["x".to_owned()]);
        let again = encode_again(&data).expect("update");
        assert_eq!(again, data);
        assert_eq!(verify_geyser(&data, &again), None);
    }
    // the time before the update
    let mut data = Vec::new();
    let time = prost_types::Timestamp { seconds: 1, nanos: 0 };
    prost::encoding::message::encode(11, &time, &mut data);
    prost::encoding::message::encode(3, &proto::SubscribeUpdateSlot::default(), &mut data);
    let again = encode_again(&data).expect("update");
    assert_eq!(again, [0x1a, 0, 0x5a, 2, 8, 1]);
    let text = "encoding doesn't match: 5a0208011a00";
    assert_eq!(verify_geyser(&data, &again).as_deref(), Some(text));
    assert_eq!(mismatch_text(&data), text);
    // neither an update nor a time
    assert!(encode_again(&[]).unwrap().is_empty());
    assert!(encode_again(&[0x80]).is_err());
}

#[test]
fn updates_beyond_the_stream_are_not_looked_at() {
    let mut data = Vec::new();
    let time = prost_types::Timestamp { seconds: 1, nanos: 0 };
    prost::encoding::message::encode(11, &time, &mut data);
    prost::encoding::message::encode(
        102,
        &proto::SubscribeUpdateContactInfoRemoved { pubkey: vec![42; 32] },
        &mut data,
    );
    assert!(matches!(
        StreamUpdate::decode_geyser(&data),
        Ok(StreamUpdate::Geyser { update_oneof: None, created_at: Some(_), .. })
    ));
    assert!(matches!(StreamUpdate::decode(&data), Ok(StreamUpdate::Richat { .. })));
}

#[test]
fn transactions_before_replay_are_read_back() {
    let transaction = transaction_info().transaction.unwrap().encode_to_vec();
    for loaded_addresses in [
        None,
        Some(LoadedAddresses { writable: vec![vec![5; 32]], readonly: vec![vec![6; 32]; 2] }),
    ] {
        let tx = ReplicaDeshredTransactionInfo {
            signature: vec![4; 64],
            is_vote: true,
            transaction: transaction.clone(),
            loaded_addresses,
            completed_data_set_starting_shred_index: 0,
            completed_data_set_ending_shred_index_exclusive: u32::MAX,
        };
        let data = ProtobufMessage::DeshredTransaction { slot: 7, transaction: &tx }
            .encode_with_timestamp(ProtobufEncoder::Raw, TIME);
        let update = StreamUpdate::decode(&data).expect("update");
        let mut readings = Readings::new();
        readings.bodies.push((transaction.clone(), transaction.clone()));
        assert_eq!(verify_encoding(&data, &update, &readings), Verdict::Same);
        match update {
            StreamUpdate::Richat {
                update_oneof: Some(UpdateOneofRichat::DeshredTransaction(m)),
                created_at,
            } => {
                assert_eq!((m.slot, created_at), (7, Some(TIME)));
                let info = m.transaction.unwrap();
                assert_eq!((info.signature, info.is_vote), (vec![4; 64], true));
                assert_eq!(info.transaction.unwrap(), transaction);
                let loaded = tx.loaded_addresses.map_or((vec![], vec![]), |loaded| {
                    (loaded.writable, loaded.readonly)
                });
                assert_eq!(info.loaded_writable_addresses, loaded.0);
                assert_eq!(info.loaded_readonly_addresses, loaded.1);
                assert_eq!(info.completed_data_set_starting_shred_index, 0);
                assert_eq!(info.completed_data_set_ending_shred_index_exclusive, u32::MAX);
            }
            other => panic!("unexpected {other:?}"),
        }
        for parser in PARSERS {
            assert!(matches!(
                Message::parse(data.clone(), parser),
                Err(MessageParseError::InvalidUpdateMessage("Richat"))
            ));
        }
    }
}
