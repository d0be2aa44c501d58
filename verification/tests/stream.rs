//! Updates decoded in full, encoded again, counted and shown.
use prost::Message as _;
use richat::codec::Timestamp;
use richat::convert::{convert_prost_to_raw, verify_encoding, ConvertError, Verdict};
use richat::geyser::{
    SubscribeUpdateAccount, SubscribeUpdateAccountInfo, SubscribeUpdateEntry, SubscribeUpdateSlot,
};
use richat::plugin::{
    BlockFooterView, ReplicaContactInfo, ReplicaDeshredTransactionInfo,
    ReplicaDeshredUpdateParentInfo, ReplicaEntryUpdateParentInfo,
};
use richat::pretty::{PrettyRichat, StreamError};
use richat::protobuf::{GeyserSlotStatus, ProtobufEncoder, ProtobufMessage};
use richat::readings::{
    transaction_key, Readings, TransactionWithStatusMeta, VersionedTransactionWithStatusMeta,
};
use richat::richat::{SubscribeUpdateContactInfoNode, UpdateOneofRichat};
use richat::stats::{Line, PrettyUpdate, StreamAction, StreamStats};
use richat::stream::{StreamUpdate, UpdateOneof};
use yellowstone_grpc_proto::geyser as proto;
use yellowstone_grpc_proto::geyser::subscribe_update::UpdateOneof as ProstUpdate;
use yellowstone_grpc_proto::solana::storage::confirmed_block;

const TIME: Timestamp = Timestamp { seconds: 1_757_500_000, nanos: 42 };

fn account() -> SubscribeUpdateAccountInfo {
    SubscribeUpdateAccountInfo {
        pubkey: vec![1; 32],
        lamports: 8123,
        owner: vec![0; 32],
        executable: true,
        rent_epoch: 4242,
        data: vec![0, 1, 0xab],
        write_version: 12,
        txn_signature: Some(vec![3; 64]),
    }
}

fn entry() -> SubscribeUpdateEntry {
    SubscribeUpdateEntry {
        slot: 42,
        index: 3,
        num_hashes: 128,
        hash: vec![42; 32],
        executed_transaction_count: 32,
        starting_transaction_index: 96,
    }
}

fn contact() -> ReplicaContactInfo {
    ReplicaContactInfo {
        pubkey: vec![11; 32],
        wallclock: 1_757_500_000_000,
        outset: 0,
        shred_version: 50093,
        version_major: 4,
        version_minor: 3,
        version_patch: 0,
        version_commit: 0xdead_beef,
        version_feature_set: 0x1234_5678,
        version_client_id: 3,
        gossip: Some("10.1.2.3:8001".to_owned()),
        tpu_quic: None,
        tpu_forwards_quic: None,
        tpu_vote_udp: None,
        tpu_vote_quic: None,
        tvu_udp: None,
        tvu_quic: None,
        serve_repair_udp: None,
        serve_repair_quic: None,
        rpc: Some("[::1]:8899".to_owned()),
        rpc_pubsub: None,
        alpenglow: Some(String::new()),
    }
}

/// Readings of the sockets of nodes: texts, and the addresses that they are.
fn sockets(pairs: &[(&str, &str)]) -> Readings {
    let mut readings = Readings::new();
    for (text, address) in pairs {
        readings.sockets.push(((*text).to_owned(), (*address).to_owned()));
    }
    readings
}

/// Readings in which the sockets of the node and the footer are read as they were written.
fn written() -> Readings {
    let mut readings = sockets(&[
        ("10.1.2.3:8001", "10.1.2.3:8001"),
        ("[::1]:8899", "[::1]:8899"),
        ("", ""),
    ]);
    readings.footers.push((footer().footer, footer()));
    readings
}

fn footer() -> BlockFooterView {
    BlockFooterView {
        version: 1,
        bank_hash: [7; 32],
        block_producer_time_nanos: 9,
        block_user_agent: b"agave/4.3.0".to_vec(),
        footer: vec![0xde, 0xad],
    }
}

fn decode(data: &[u8]) -> StreamUpdate {
    StreamUpdate::decode(data).expect("update")
}

#[test]
fn what_was_told_is_read_back_and_verified() {
    let (account, entry, contact, footer) = (account(), entry(), contact(), footer());
    let readings = written();
    let status = GeyserSlotStatus::Dead("why".to_owned());
    let replay = ReplicaEntryUpdateParentInfo {
        slot: 5,
        cleared_bank_id: 43,
        parent_slot: 4,
        parent_block_id: [9; 32],
    };
    let shreds = ReplicaDeshredUpdateParentInfo {
        slot: 5,
        update_parent_fec_set_index: 96,
        parent_slot: 4,
        parent_block_id: [9; 32],
    };
    for message in [
        ProtobufMessage::Account { slot: 5, account: &account },
        ProtobufMessage::Slot { slot: 5, parent: Some(4), status: &status },
        ProtobufMessage::Entry { entry: &entry },
        ProtobufMessage::ContactInfo { info: &contact },
        ProtobufMessage::ContactInfoRemoved { pubkey: &[1; 32] },
        ProtobufMessage::BlockFooter { slot: 5, bank_id: 6, block_footer: &footer },
        ProtobufMessage::EntryUpdateParent { info: &replay },
        ProtobufMessage::DeshredUpdateParent { info: &shreds },
    ] {
        for encoder in [ProtobufEncoder::Raw, ProtobufEncoder::Prost] {
            let data = message.encode_with_timestamp(encoder, TIME);
            let update = decode(&data);
            assert_eq!(
                verify_encoding(&data, &update, &readings),
                Verdict::Same,
                "{message:?}"
            );
            let mut other = data.clone();
            other.push(0);
            assert_eq!(
                verify_encoding(&other, &update, &readings),
                Verdict::Differs
            );
            // where a stream reads updates of its own, there is the time of any other
            match StreamUpdate::decode_geyser(&data).expect("update") {
                StreamUpdate::Geyser { filters, update_oneof, created_at } => {
                    let told = matches!(
                        message,
                        ProtobufMessage::Account { .. }
                            | ProtobufMessage::Slot { .. }
                            | ProtobufMessage::Entry { .. }
                    );
                    assert_eq!((filters.len(), update_oneof.is_some()), (0, told));
                    assert_eq!(created_at, Some(TIME));
                }
                other => panic!("unexpected {other:?}"),
            }
        }
    }
    let data =
        ProtobufMessage::BlockFooter { slot: 5, bank_id: 6, block_footer: &footer }.encode_raw(TIME);
    assert_eq!(
        verify_encoding(&data, &decode(&data), &Readings::new()),
        Verdict::Failed(ConvertError::InvalidBlockFooter)
    );
}

#[test]
fn the_values_of_a_node_are_read_back() {
    let contact = contact();
    let data = ProtobufMessage::ContactInfo { info: &contact }.encode_raw(TIME);
    match decode(&data) {
        StreamUpdate::Richat { update_oneof: Some(UpdateOneofRichat::ContactInfo(node)), created_at } => {
            assert_eq!(created_at, Some(TIME));
            assert_eq!(node.pubkey, contact.pubkey);
            assert_eq!(node.shred_version, 50093);
            assert_eq!(node.version_feature_set, 0x1234_5678);
            assert_eq!(node.gossip, contact.gossip);
            assert_eq!(node.tpu_quic, None);
            assert_eq!(node.alpenglow.as_deref(), Some(""));
        }
        other => panic!("unexpected {other:?}"),
    }
}

fn prost_update(update: ProstUpdate) -> Vec<u8> {
    proto::SubscribeUpdate {
        filters: vec!["a".to_owned(), "b".to_owned()],
        update_oneof: Some(update),
        created_at: Some(prost_types::Timestamp { seconds: TIME.seconds, nanos: TIME.nanos }),
    }
    .encode_to_vec()
}

fn prost_transaction() -> proto::SubscribeUpdateTransactionInfo {
    proto::SubscribeUpdateTransactionInfo {
        signature: vec![3; 64],
        is_vote: true,
        transaction: Some(confirmed_block::Transaction {
            signatures: vec![vec![3; 64]],
            message: None,
        }),
        meta: Some(confirmed_block::TransactionStatusMeta { fee: 5, ..Default::default() }),
        index: 9,
    }
}

/// The bytes of a transaction update, without the names of filters.
fn transaction_update(info: proto::SubscribeUpdateTransactionInfo) -> Vec<u8> {
    let update = proto::SubscribeUpdateTransaction { transaction: Some(info), slot: 7 };
    let mut data = Vec::new();
    prost::encoding::message::encode(4, &update, &mut data);
    prost::encoding::message::encode(
        11,
        &prost_types::Timestamp { seconds: TIME.seconds, nanos: TIME.nanos },
        &mut data,
    );
    data
}

/// Readings of the transaction of the update.
fn transaction_read(
    data: &[u8],
    read: Result<TransactionWithStatusMeta, &'static str>,
) -> Readings {
    let mut readings = Readings::new();
    match decode(data) {
        StreamUpdate::Geyser { update_oneof: Some(UpdateOneof::Transaction(m)), .. } => {
            readings.transactions.push((transaction_key(&m.transaction.unwrap()), read));
        }
        other => panic!("unexpected {other:?}"),
    }
    readings
}

/// The parts of the transaction as they were.
fn versioned() -> VersionedTransactionWithStatusMeta {
    VersionedTransactionWithStatusMeta {
        transaction: prost_transaction().transaction.unwrap().encode_to_vec(),
        meta: prost_transaction().meta.unwrap().encode_to_vec(),
    }
}

#[test]
fn a_transaction_is_encoded_as_it_came() {
    let data = transaction_update(prost_transaction());
    let readings = transaction_read(&data, Ok(TransactionWithStatusMeta::Complete(versioned())));
    assert_eq!(verify_encoding(&data, &decode(&data), &readings), Verdict::Same);
    // the names of filters are not encoded again
    let named = prost_update(ProstUpdate::Transaction(proto::SubscribeUpdateTransaction {
        transaction: Some(prost_transaction()),
        slot: 7,
    }));
    assert_eq!(verify_encoding(&named, &decode(&named), &readings), Verdict::Differs);
}

#[test]
fn a_transaction_is_encoded_as_the_validator_makes_of_it() {
    let data = transaction_update(prost_transaction());
    let update = decode(&data);
    // the types of the validator refuse it, or were not asked
    let refused = transaction_read(&data, Err("failed to parse message"));
    for readings in [&refused, &Readings::new()] {
        assert_eq!(
            convert_prost_to_raw(&update, readings).unwrap_err(),
            ConvertError::InvalidTransaction
        );
    }
    // they know nothing of how it went
    let missing = transaction_read(
        &data,
        Ok(TransactionWithStatusMeta::MissingMetadata(versioned().transaction)),
    );
    assert_eq!(
        convert_prost_to_raw(&update, &missing).unwrap_err(),
        ConvertError::NoTransactionMeta
    );
    // they make something else of it
    let meta = confirmed_block::TransactionStatusMeta { fee: 6, ..Default::default() };
    let other = VersionedTransactionWithStatusMeta { meta: meta.encode_to_vec(), ..versioned() };
    let readings = transaction_read(&data, Ok(TransactionWithStatusMeta::Complete(other)));
    let expected = transaction_update(proto::SubscribeUpdateTransactionInfo {
        meta: Some(meta),
        ..prost_transaction()
    });
    assert_eq!(convert_prost_to_raw(&update, &readings).unwrap(), Some(expected));
    // of two readings the later one counts
    let mut twice = refused;
    twice.transactions.extend(readings.transactions);
    assert!(convert_prost_to_raw(&update, &twice).is_ok());
    // the signature is looked at last
    let short = proto::SubscribeUpdateTransactionInfo { signature: vec![3; 63], ..prost_transaction() };
    let data = transaction_update(short);
    let update = decode(&data);
    assert_eq!(
        convert_prost_to_raw(&update, &Readings::new()).unwrap_err(),
        ConvertError::InvalidTransaction
    );
    let readings = transaction_read(&data, Ok(TransactionWithStatusMeta::Complete(versioned())));
    assert_eq!(
        convert_prost_to_raw(&update, &readings).unwrap_err(),
        ConvertError::InvalidSignature
    );
}

#[test]
fn rewards_are_encoded_as_the_validator_makes_of_them() {
    let rewards = |lamports: i64| confirmed_block::Rewards {
        rewards: vec![confirmed_block::Reward { lamports, ..Default::default() }],
        num_partitions: None,
    };
    let data = |lamports: i64| {
        let meta = proto::SubscribeUpdateBlockMeta {
            slot: 3,
            rewards: Some(rewards(lamports)),
            ..Default::default()
        };
        let mut data = Vec::new();
        prost::encoding::message::encode(7, &meta, &mut data);
        prost::encoding::message::encode(
            11,
            &prost_types::Timestamp { seconds: TIME.seconds, nanos: TIME.nanos },
            &mut data,
        );
        data
    };
    let update = decode(&data(1));
    assert_eq!(
        convert_prost_to_raw(&update, &Readings::new()).unwrap_err(),
        ConvertError::InvalidRewards
    );
    let mut readings = Readings::new();
    readings.reward_lists.push((rewards(1).encode_to_vec(), rewards(1).encode_to_vec()));
    assert_eq!(verify_encoding(&data(1), &update, &readings), Verdict::Same);
    readings.reward_lists.push((rewards(1).encode_to_vec(), rewards(2).encode_to_vec()));
    assert_eq!(convert_prost_to_raw(&update, &readings).unwrap(), Some(data(2)));
    assert_eq!(verify_encoding(&data(1), &update, &readings), Verdict::Differs);
}

#[test]
fn a_transaction_before_replay_is_encoded_as_it_came() {
    let tx = ReplicaDeshredTransactionInfo {
        signature: vec![3; 64],
        is_vote: false,
        transaction: confirmed_block::Transaction {
            signatures: vec![vec![3; 64]],
            message: None,
        }
        .encode_to_vec(),
        loaded_addresses: None,
        completed_data_set_starting_shred_index: 1,
        completed_data_set_ending_shred_index_exclusive: 4,
    };
    let data = ProtobufMessage::DeshredTransaction { slot: 8, transaction: &tx }.encode_raw(TIME);
    let update = decode(&data);
    match &update {
        StreamUpdate::Richat { update_oneof: Some(UpdateOneofRichat::DeshredTransaction(m)), .. } => {
            assert_eq!(m.slot, 8);
            assert_eq!(m.transaction.as_ref().unwrap().transaction, Some(tx.transaction.clone()));
        }
        other => panic!("unexpected {other:?}"),
    }
    assert_eq!(
        verify_encoding(&data, &update, &Readings::new()),
        Verdict::Failed(ConvertError::InvalidTransaction)
    );
    let mut readings = Readings::new();
    readings.bodies.push((tx.transaction.clone(), tx.transaction.clone()));
    assert_eq!(verify_encoding(&data, &update, &readings), Verdict::Same);
    readings.bodies.push((tx.transaction.clone(), vec![]));
    assert_eq!(verify_encoding(&data, &update, &readings), Verdict::Differs);
}

fn geyser(update: UpdateOneof) -> StreamUpdate {
    StreamUpdate::Geyser { filters: vec![], update_oneof: Some(update), created_at: Some(TIME) }
}

fn richat(update: UpdateOneofRichat) -> StreamUpdate {
    StreamUpdate::Richat { update_oneof: Some(update), created_at: Some(TIME) }
}

fn slot(status: i32) -> SubscribeUpdateSlot {
    SubscribeUpdateSlot { slot: 7, parent: Some(6), status, dead_error: None }
}

fn node() -> SubscribeUpdateContactInfoNode {
    let data = ProtobufMessage::ContactInfo { info: &contact() }.encode_raw(TIME);
    match decode(&data) {
        StreamUpdate::Richat { update_oneof: Some(UpdateOneofRichat::ContactInfo(node)), .. } => node,
        other => panic!("unexpected {other:?}"),
    }
}

#[test]
fn the_sockets_of_a_node_are_encoded_as_addresses_are_written() {
    let readings = sockets(&[
        ("10.1.2.3:8001", "10.1.2.3:8001"),
        ("[2001:0db8:0::0001]:8899", "[2001:db8::1]:8899"),
        ("", ""),
    ]);
    let node = SubscribeUpdateContactInfoNode {
        rpc: Some("[2001:0db8:0::0001]:8899".to_owned()),
        ..node()
    };
    let update = richat(UpdateOneofRichat::ContactInfo(node));
    let data = convert_prost_to_raw(&update, &readings).unwrap().expect("encoded");
    let written =
        ReplicaContactInfo { rpc: Some("[2001:db8::1]:8899".to_owned()), ..contact() };
    assert_eq!(data, ProtobufMessage::ContactInfo { info: &written }.encode_raw(TIME));
    // one text that is no address is enough
    let mut fewer = readings;
    fewer.sockets.pop();
    assert_eq!(
        convert_prost_to_raw(&update, &fewer).unwrap_err(),
        ConvertError::InvalidSocket
    );
}

#[test]
fn what_cannot_be_encoded_again() {
    let body = confirmed_block::Transaction::default().encode_to_vec();
    let mut readings = Readings::new();
    readings.bodies.push((body.clone(), body));
    let failure = |update: StreamUpdate| convert_prost_to_raw(&update, &readings).unwrap_err();
    let mut bad = account();
    bad.txn_signature = Some(vec![3; 63]);
    assert_eq!(
        failure(geyser(UpdateOneof::Account(SubscribeUpdateAccount {
            account: Some(bad),
            slot: 1,
            is_startup: true,
        }))),
        ConvertError::InvalidSignature
    );
    assert_eq!(failure(geyser(UpdateOneof::Slot(slot(7)))), ConvertError::InvalidStatus(7));
    let data = prost_update(ProstUpdate::BlockMeta(proto::SubscribeUpdateBlockMeta::default()));
    assert_eq!(failure(decode(&data)), ConvertError::NoRewards);
    let large = SubscribeUpdateContactInfoNode { version_client_id: 65536, ..node() };
    assert_eq!(
        failure(richat(UpdateOneofRichat::ContactInfo(large))),
        ConvertError::InvalidNumber
    );
    assert_eq!(
        failure(richat(UpdateOneofRichat::ContactInfo(node()))),
        ConvertError::InvalidSocket
    );
    let data = {
        let mut payload = Vec::new();
        prost::encoding::bytes::encode(4, &vec![9; 31], &mut payload);
        let mut data = Vec::new();
        prost::encoding::message::encode(
            11,
            &prost_types::Timestamp { seconds: 1, nanos: 0 },
            &mut data,
        );
        prost::encoding::bytes::encode(104, &payload, &mut data);
        data
    };
    assert_eq!(failure(decode(&data)), ConvertError::InvalidHash);
    let data = {
        let info = proto::SubscribeUpdateDeshredTransactionInfo {
            signature: vec![3; 64],
            transaction: Some(confirmed_block::Transaction::default()),
            loaded_readonly_addresses: vec![vec![1; 31]],
            ..Default::default()
        };
        let update =
            proto::SubscribeUpdateDeshredTransaction { transaction: Some(info), slot: 1 };
        let mut data = Vec::new();
        prost::encoding::message::encode(100, &update, &mut data);
        prost::encoding::message::encode(
            11,
            &prost_types::Timestamp { seconds: 1, nanos: 0 },
            &mut data,
        );
        data
    };
    assert_eq!(failure(decode(&data)), ConvertError::InvalidAddress);
    let data = {
        let info = proto::SubscribeUpdateDeshredTransactionInfo {
            signature: vec![3; 64],
            ..Default::default()
        };
        let update =
            proto::SubscribeUpdateDeshredTransaction { transaction: Some(info), slot: 1 };
        let mut data = Vec::new();
        prost::encoding::message::encode(100, &update, &mut data);
        prost::encoding::message::encode(
            11,
            &prost_types::Timestamp { seconds: 1, nanos: 0 },
            &mut data,
        );
        data
    };
    assert_eq!(failure(decode(&data)), ConvertError::NoTransaction);
    // nothing to encode
    assert!(matches!(convert_prost_to_raw(&geyser(UpdateOneof::Ping), &readings), Ok(None)));
    let no_time =
        StreamUpdate::Geyser { filters: vec![], update_oneof: Some(UpdateOneof::Slot(slot(7))), created_at: None };
    assert!(matches!(convert_prost_to_raw(&no_time, &readings), Ok(None)));
}

#[test]
fn bytes_that_are_no_update() {
    assert!(StreamUpdate::decode(&[0xff]).is_err());
    assert!(matches!(
        StreamUpdate::decode(&[]),
        Ok(StreamUpdate::Geyser { update_oneof: None, created_at: None, .. })
    ));
}

#[test]
fn updates_are_counted() {
    let mut stats = StreamStats::new();
    assert_eq!(stats.tip().message(), "null / null / null");
    let mut count = |update: StreamUpdate, len: u64| stats.handle_update(update, len, true, &Readings::new());
    for (status, tip) in [(0, true), (1, true), (2, true), (3, false), (6, false)] {
        assert!(matches!(
            count(geyser(UpdateOneof::Slot(slot(status))), 10),
            Ok(StreamAction::Count { line: Line::Slots, tip: t }) if t == tip
        ));
    }
    assert!(matches!(
        count(geyser(UpdateOneof::Slot(slot(7))), 10),
        Err(StreamError::InvalidStatus)
    ));
    for update in [UpdateOneof::Ping, UpdateOneof::Pong] {
        assert!(matches!(
            count(geyser(update), 1),
            Ok(StreamAction::Count { line: Line::PingPong, tip: false })
        ));
    }
    assert!(matches!(
        count(geyser(UpdateOneof::Entry(entry())), 5),
        Ok(StreamAction::Count { line: Line::Entries, tip: false })
    ));
    assert!(matches!(
        count(richat(UpdateOneofRichat::ContactInfoRemoved { pubkey: vec![] }), 7),
        Ok(StreamAction::Count { line: Line::ContactInfo, tip: false })
    ));
    // the time counts only for what is none of the stream
    let no_time = |update_oneof| StreamUpdate::Geyser { filters: vec![], update_oneof, created_at: None };
    assert!(matches!(count(no_time(Some(UpdateOneof::Ping)), 1), Ok(StreamAction::Count { .. })));
    assert!(matches!(count(no_time(None), 1), Ok(StreamAction::NoUpdate)));
    assert!(matches!(
        count(StreamUpdate::Richat { update_oneof: None, created_at: None }, 1),
        Err(StreamError::NoCreatedAt)
    ));
    assert!(matches!(
        count(StreamUpdate::Richat { update_oneof: None, created_at: Some(TIME) }, 1),
        Ok(StreamAction::NoUpdate)
    ));

    let slots = stats.line(Line::Slots);
    assert_eq!((slots.messages, slots.bytes), (5, 50));
    let pings = stats.line(Line::PingPong);
    assert_eq!((pings.messages, pings.bytes), (3, 3));
    assert_eq!(stats.line(Line::Blocks).messages, 0);
    let total = stats.total();
    assert_eq!((total.messages, total.bytes), (10, 65));
    assert_eq!(stats.tip().message(), "7 / 7 / 7");
}

#[test]
fn an_account_is_shown() {
    let update = StreamUpdate::Geyser {
        filters: vec!["client".to_owned()],
        update_oneof: Some(UpdateOneof::Account(SubscribeUpdateAccount {
            account: Some(account()),
            slot: 5,
            is_startup: true,
        })),
        created_at: Some(TIME),
    };
    let mut stats = StreamStats::new();
    let readings = Readings::new();
    match stats.handle_update(update, 1, false, &readings) {
        Ok(StreamAction::Print {
            kind,
            created_at,
            filters,
            value: PrettyUpdate::Account { account, is_startup, slot },
        }) => {
            assert_eq!((kind, created_at, is_startup, slot), ("account", TIME, true, 5));
            assert_eq!(filters, ["client"]);
            assert_eq!(account.owner, "11111111111111111111111111111111");
            assert_eq!(
                account.pubkey,
                solana_pubkey::Pubkey::new_from_array([1; 32]).to_string()
            );
            assert_eq!(account.data, "0001ab");
            assert_eq!(
                account.txn_signature,
                Some(solana_signature::Signature::from([3; 64]).to_string())
            );
            assert_eq!((account.lamports, account.rent_epoch, account.write_version), (8123, 4242, 12));
        }
        other => panic!("unexpected {other:?}"),
    }
    assert_eq!(stats.total().messages, 0);
}

#[test]
fn other_updates_are_shown() {
    let mut stats = StreamStats::new();
    let rewards = confirmed_block::Rewards {
        rewards: vec![confirmed_block::Reward { lamports: -5, ..Default::default() }],
        num_partitions: None,
    };
    let mut readings = transaction_read(
        &transaction_update(prost_transaction()),
        Ok(TransactionWithStatusMeta::Complete(versioned())),
    );
    readings.reward_lists.push((rewards.encode_to_vec(), rewards.encode_to_vec()));
    readings.errors.push((vec![8], vec![8]));
    let mut show = |update: StreamUpdate| match stats.handle_update(update, 1, false, &readings) {
        Ok(StreamAction::Print { kind, value, .. }) => (kind, value),
        other => panic!("unexpected {other:?}"),
    };
    match show(geyser(UpdateOneof::Slot(slot(5)))) {
        ("slot", PrettyUpdate::Slot(shown)) => {
            assert_eq!((shown.slot, shown.parent, shown.status), (7, Some(6), "SLOT_CREATED_BANK"));
        }
        other => panic!("unexpected {other:?}"),
    }
    match show(geyser(UpdateOneof::Entry(entry()))) {
        ("entry", PrettyUpdate::Entry(shown)) => {
            assert_eq!(shown.hash, solana_hash::Hash::new_from_array([42; 32]).to_string());
        }
        other => panic!("unexpected {other:?}"),
    }
    match show(richat(UpdateOneofRichat::ContactInfo(node()))) {
        ("contactInfo", PrettyUpdate::Richat(PrettyRichat::ContactInfo(shown))) => {
            assert_eq!(shown.version, "4.3.0");
            assert_eq!(shown.node.gossip.as_deref(), Some("10.1.2.3:8001"));
        }
        other => panic!("unexpected {other:?}"),
    }
    let footer = BlockFooterView { block_user_agent: vec![b'a', 0xff], ..footer() };
    let data =
        ProtobufMessage::BlockFooter { slot: 5, bank_id: 6, block_footer: &footer }.encode_raw(TIME);
    match show(decode(&data)) {
        ("blockFooter", PrettyUpdate::Richat(PrettyRichat::BlockFooter(shown))) => {
            assert_eq!(shown.footer, "dead");
            assert_eq!(shown.block_user_agent, "a\u{fffd}");
            assert_eq!(shown.bank_hash, solana_hash::Hash::new_from_array([7; 32]).to_string());
        }
        other => panic!("unexpected {other:?}"),
    }
    let block = proto::SubscribeUpdateBlock {
        slot: 9,
        blockhash: "hash".to_owned(),
        rewards: Some(rewards),
        transactions: vec![prost_transaction()],
        updated_account_count: 17,
        entries: vec![proto::SubscribeUpdateEntry { hash: vec![42; 32], ..Default::default() }],
        ..Default::default()
    };
    match show(decode(&prost_update(ProstUpdate::Block(block)))) {
        ("block", PrettyUpdate::Block(shown)) => {
            assert_eq!(shown.meta.slot, 9);
            assert_eq!(shown.meta.rewards.as_ref().unwrap()[0].lamports, -5);
            assert_eq!(shown.updated_account_count, 17);
            assert_eq!((shown.transactions.len(), shown.accounts.len(), shown.entries.len()), (1, 0, 1));
            assert!(shown.transactions[0].is_vote);
            assert_eq!(shown.transactions[0].transaction, versioned().transaction);
            assert_eq!(shown.transactions[0].meta, Some(versioned().meta));
        }
        other => panic!("unexpected {other:?}"),
    }
    let status = proto::SubscribeUpdateTransactionStatus {
        slot: 4,
        signature: vec![3; 64],
        is_vote: false,
        index: 2,
        err: Some(confirmed_block::TransactionError { err: vec![8] }),
    };
    match show(decode(&prost_update(ProstUpdate::TransactionStatus(status)))) {
        ("transactionStatus", PrettyUpdate::TransactionStatus(shown)) => {
            assert_eq!((shown.slot, shown.index, shown.err), (4, 2, Some(vec![8])));
        }
        other => panic!("unexpected {other:?}"),
    }
    let meta = proto::SubscribeUpdateBlockMeta {
        slot: 3,
        block_time: Some(confirmed_block::UnixTimestamp { timestamp: -1 }),
        ..Default::default()
    };
    match show(decode(&prost_update(ProstUpdate::BlockMeta(meta)))) {
        ("blockmeta", PrettyUpdate::BlockMeta(shown)) => {
            assert_eq!((shown.slot, shown.block_time, shown.rewards), (3, Some(-1), None));
        }
        other => panic!("unexpected {other:?}"),
    }
}

#[test]
fn a_time_that_the_machine_cannot_hold_is_not_counted_beyond_the_stream() {
    let ago = Some(Timestamp { seconds: i64::MIN, nanos: 0 });
    let removed = || Some(UpdateOneofRichat::ContactInfoRemoved { pubkey: vec![] });
    let mut stats = StreamStats::new();
    let update = StreamUpdate::Richat { update_oneof: removed(), created_at: ago };
    assert!(matches!(
        stats.handle_update(update, 7, true, &Readings::new()),
        Err(StreamError::InvalidCreatedAt)
    ));
    assert_eq!(stats.total().messages, 0);
    let update = StreamUpdate::Richat { update_oneof: removed(), created_at: Some(TIME) };
    assert!(matches!(
        stats.handle_timed(update, 7, true, false, &Readings::new()),
        Err(StreamError::InvalidCreatedAt)
    ));
    // an update of the stream is counted whatever its time
    let update =
        StreamUpdate::Geyser { filters: vec![], update_oneof: Some(UpdateOneof::Ping), created_at: ago };
    assert!(matches!(
        stats.handle_update(update, 7, true, &Readings::new()),
        Ok(StreamAction::Count { line: Line::PingPong, tip: false })
    ));
    assert_eq!(stats.total().messages, 1);
}

#[test]
fn what_cannot_be_shown() {
    let failure = |update: StreamUpdate| {
        StreamStats::new()
            .handle_update(update, 1, false, &Readings::new())
            .unwrap_err()
            .message()
    };
    let account_with = |change: fn(&mut SubscribeUpdateAccountInfo)| {
        let mut info = account();
        change(&mut info);
        geyser(UpdateOneof::Account(SubscribeUpdateAccount {
            account: Some(info),
            slot: 1,
            is_startup: false,
        }))
    };
    assert_eq!(failure(account_with(|a| a.pubkey.push(0))), "invalid account pubkey");
    assert_eq!(failure(account_with(|a| a.owner.clear())), "invalid account owner");
    assert_eq!(failure(account_with(|a| a.txn_signature = Some(vec![]))), "invalid txn signature");
    assert_eq!(
        failure(geyser(UpdateOneof::Account(SubscribeUpdateAccount {
            account: None,
            slot: 1,
            is_startup: false,
        }))),
        "no account in the message"
    );
    assert_eq!(failure(geyser(UpdateOneof::Slot(slot(-1)))), "failed to decode commitment");
    let entry = SubscribeUpdateEntry { hash: vec![], ..entry() };
    assert_eq!(failure(geyser(UpdateOneof::Entry(entry))), "invalid entry hash");
    assert_eq!(
        failure(richat(UpdateOneofRichat::ContactInfoRemoved { pubkey: vec![1; 33] })),
        "invalid pubkey"
    );
    assert_eq!(
        failure(StreamUpdate::Richat { update_oneof: None, created_at: None }),
        "no created_at in the message"
    );
    let ago = Some(Timestamp { seconds: i64::MIN, nanos: 0 });
    for update in [
        StreamUpdate::Richat { update_oneof: None, created_at: ago },
        StreamUpdate::Geyser { filters: vec![], update_oneof: Some(UpdateOneof::Ping), created_at: ago },
        StreamUpdate::Geyser { filters: vec![], update_oneof: None, created_at: ago },
    ] {
        assert_eq!(failure(update), "failed to parse created_at");
    }
    let transaction = proto::SubscribeUpdateTransaction { transaction: None, slot: 1 };
    assert_eq!(
        failure(decode(&prost_update(ProstUpdate::Transaction(transaction)))),
        "no transaction in the message"
    );
    assert!(matches!(
        StreamStats::new().handle_update(geyser(UpdateOneof::Ping), 1, false, &Readings::new()),
        Ok(StreamAction::Skip)
    ));
}

#[test]
fn what_the_validator_refuses_is_not_shown() {
    let failure = |data: &[u8], readings: &Readings| {
        StreamStats::new().handle_update(decode(data), 1, false, readings).unwrap_err().message()
    };
    let none = Readings::new();
    let data = transaction_update(prost_transaction());
    assert_eq!(failure(&data, &none), "invalid tx with meta");
    assert_eq!(failure(&data, &transaction_read(&data, Err("refused"))), "invalid tx with meta");
    // how a transaction went may be missing
    let missing = transaction_read(
        &data,
        Ok(TransactionWithStatusMeta::MissingMetadata(versioned().transaction)),
    );
    match StreamStats::new().handle_update(decode(&data), 1, false, &missing) {
        Ok(StreamAction::Print { value: PrettyUpdate::Transaction { transaction, slot }, .. }) => {
            assert_eq!((transaction.meta, slot), (None, 7));
            assert_eq!(transaction.transaction, versioned().transaction);
        }
        other => panic!("unexpected {other:?}"),
    }
    // the signature is looked at first
    let short = proto::SubscribeUpdateTransactionInfo { signature: vec![3; 63], ..prost_transaction() };
    assert_eq!(failure(&transaction_update(short), &none), "invalid signature");
    let status = |err| {
        prost_update(ProstUpdate::TransactionStatus(proto::SubscribeUpdateTransactionStatus {
            signature: vec![3; 64],
            err,
            ..Default::default()
        }))
    };
    let refused = status(Some(confirmed_block::TransactionError { err: vec![8] }));
    assert_eq!(failure(&refused, &none), "invalid error");
    assert!(matches!(
        StreamStats::new().handle_update(decode(&status(None)), 1, false, &none),
        Ok(StreamAction::Print { .. })
    ));
    let meta = proto::SubscribeUpdateBlockMeta {
        rewards: Some(confirmed_block::Rewards::default()),
        ..Default::default()
    };
    assert_eq!(failure(&prost_update(ProstUpdate::BlockMeta(meta)), &none), "invalid rewards");
    let tx = ReplicaDeshredTransactionInfo {
        signature: vec![3; 64],
        is_vote: false,
        transaction: prost_transaction().transaction.unwrap().encode_to_vec(),
        loaded_addresses: None,
        completed_data_set_starting_shred_index: 1,
        completed_data_set_ending_shred_index_exclusive: 4,
    };
    let data = ProtobufMessage::DeshredTransaction { slot: 8, transaction: &tx }.encode_raw(TIME);
    assert_eq!(failure(&data, &none), "invalid transaction");
}
