//! What a validator tells of, encoded by either encoder as `prost` encodes it.
use prost::Message as _;
use richat::codec::Timestamp;
use richat::geyser::{
    SubscribeUpdateAccountInfo, SubscribeUpdateBlockMeta, SubscribeUpdateEntry,
    SubscribeUpdateTransactionInfo, Transaction, TransactionError, TransactionStatusMeta,
};
use richat::plugin::{
    BlockFooterView, LoadedAddresses, ReplicaContactInfo, ReplicaDeshredTransactionInfo,
    ReplicaDeshredUpdateParentInfo, ReplicaEntryUpdateParentInfo,
};
use richat::protobuf::{GeyserSlotStatus, ProtobufEncoder, ProtobufMessage};
use std::time::SystemTime;
use yellowstone_grpc_proto::geyser as proto;
use yellowstone_grpc_proto::geyser::subscribe_update::UpdateOneof;
use yellowstone_grpc_proto::solana::storage::confirmed_block;

const SIGNATURE: [u8; 64] = [7; 64];

fn now() -> (Timestamp, prost_types::Timestamp) {
    let ts = prost_types::Timestamp::from(SystemTime::now());
    (Timestamp { seconds: ts.seconds, nanos: ts.nanos }, ts)
}

fn assert_encoding(
    msg_richat: &ProtobufMessage<'_>,
    update_oneof: UpdateOneof,
    created_at: (Timestamp, prost_types::Timestamp),
    name: &str,
) {
    let vec_richat1 = msg_richat.encode_with_timestamp(ProtobufEncoder::Prost, created_at.0);
    let vec_richat2 = msg_richat.encode_with_timestamp(ProtobufEncoder::Raw, created_at.0);
    assert_eq!(vec_richat1, vec_richat2, "{name}");

    let msg_prost = proto::SubscribeUpdate {
        filters: Vec::new(),
        update_oneof: Some(update_oneof),
        created_at: Some(created_at.1),
    };
    let vec_prost = msg_prost.encode_to_vec();
    assert_eq!(vec_richat1, vec_prost, "{name}");
}

fn assert_richat_encoding(
    msg_richat: &ProtobufMessage<'_>,
    tag: u32,
    payload: Vec<u8>,
    created_at: (Timestamp, prost_types::Timestamp),
    name: &str,
) {
    let vec_richat1 = msg_richat.encode_with_timestamp(ProtobufEncoder::Prost, created_at.0);
    let vec_richat2 = msg_richat.encode_with_timestamp(ProtobufEncoder::Raw, created_at.0);
    assert_eq!(vec_richat1, vec_richat2, "{name}: {msg_richat:?}");

    let mut vec_prost = Vec::new();
    prost::encoding::message::encode(11, &created_at.1, &mut vec_prost);
    prost::encoding::bytes::encode(tag, &payload, &mut vec_prost);
    assert_eq!(vec_richat1, vec_prost, "{name}: {msg_richat:?}");

    // Yellowstone `SubscribeUpdate` should skip Richat-only update
    let update = proto::SubscribeUpdate::decode(vec_richat1.as_slice()).expect("failed to decode");
    assert_eq!(update.update_oneof, None, "{name}: {msg_richat:?}");
    assert_eq!(update.created_at, Some(created_at.1), "{name}: {msg_richat:?}");
}

#[test]
fn test_encode_account() {
    let created_at = now();
    let pubkey = "28Dncoh8nmzXYEGLUcBA5SUw5WDwDBn15uUCwrWBbyuu"
        .parse::<solana_pubkey::Pubkey>()
        .expect("valid key")
        .to_bytes();
    let owner = "5jrPJWVGrFvQ2V9wRZC3kHEZhxo9pmMir15x73oHT6mn"
        .parse::<solana_pubkey::Pubkey>()
        .expect("valid key")
        .to_bytes();
    for lamports in [0, 8123] {
        for executable in [true, false] {
            for rent_epoch in [0, 4242] {
                for data in [
                    vec![],
                    vec![42; 165],
                    vec![42; 1024],
                    vec![42; 2 * 1024 * 1024],
                ] {
                    for write_version in [0, 1] {
                        for txn_signature in [None, Some(SIGNATURE.to_vec())] {
                            for slot in [0, 310639056] {
                                let account = SubscribeUpdateAccountInfo {
                                    pubkey: pubkey.to_vec(),
                                    lamports,
                                    owner: owner.to_vec(),
                                    executable,
                                    rent_epoch,
                                    data: data.clone(),
                                    write_version,
                                    txn_signature: txn_signature.clone(),
                                };
                                let msg_richat =
                                    ProtobufMessage::Account { slot, account: &account };
                                let prost = proto::SubscribeUpdateAccount {
                                    account: Some(proto::SubscribeUpdateAccountInfo {
                                        pubkey: pubkey.to_vec(),
                                        lamports,
                                        owner: owner.to_vec(),
                                        executable,
                                        rent_epoch,
                                        data: data.clone(),
                                        write_version,
                                        txn_signature: txn_signature.clone(),
                                    }),
                                    slot,
                                    is_startup: false,
                                };
                                assert_encoding(
                                    &msg_richat,
                                    UpdateOneof::Account(prost),
                                    created_at,
                                    "account",
                                );
                            }
                        }
                    }
                }
            }
        }
    }
}

#[test]
fn test_encode_block_meta() {
    let created_at = now();
    let rewards = [
        confirmed_block::Rewards { rewards: vec![], num_partitions: None },
        confirmed_block::Rewards {
            rewards: vec![confirmed_block::Reward {
                pubkey: "28Dncoh8nmzXYEGLUcBA5SUw5WDwDBn15uUCwrWBbyuu".to_owned(),
                lamports: -42,
                post_balance: 1_000_000,
                reward_type: 1,
                commission: "8".to_owned(),
                ..Default::default()
            }],
            num_partitions: Some(confirmed_block::NumPartitions { num_partitions: 12 }),
        },
    ];
    for rewards in rewards {
        for entry_count in [0, 42] {
            for block_time in [None, Some(1_757_500_000)] {
                for block_height in [None, Some(0), Some(300_000_000)] {
                    let blockinfo = SubscribeUpdateBlockMeta {
                        slot: 310_629_080,
                        blockhash: "blockhash".to_owned(),
                        rewards: Some(rewards.encode_to_vec()),
                        block_time,
                        block_height,
                        parent_slot: 310_629_079,
                        parent_blockhash: "parent".to_owned(),
                        executed_transaction_count: 1067,
                        entries_count: entry_count,
                    };
                    let prost = proto::SubscribeUpdateBlockMeta {
                        slot: 310_629_080,
                        blockhash: "blockhash".to_owned(),
                        rewards: Some(rewards.clone()),
                        block_time: block_time
                            .map(|timestamp| confirmed_block::UnixTimestamp { timestamp }),
                        block_height: block_height
                            .map(|block_height| confirmed_block::BlockHeight { block_height }),
                        parent_slot: 310_629_079,
                        parent_blockhash: "parent".to_owned(),
                        executed_transaction_count: 1067,
                        entries_count: entry_count,
                    };
                    assert_encoding(
                        &ProtobufMessage::BlockMeta { blockinfo: &blockinfo },
                        UpdateOneof::BlockMeta(prost),
                        created_at,
                        "block meta",
                    );
                }
            }
        }
    }
}

#[test]
fn test_encode_entry() {
    let created_at = now();
    for slot in [0, 42, 310629080] {
        for index in [0, 42] {
            for num_hashes in [0, 128] {
                for hash in [[0u8; 32], [42; 32], [98; 32], [255; 32]] {
                    for executed_transaction_count in [0, 32] {
                        for starting_transaction_index in [0, 96, 1067] {
                            let entry = SubscribeUpdateEntry {
                                slot,
                                index,
                                num_hashes,
                                hash: hash.to_vec(),
                                executed_transaction_count,
                                starting_transaction_index,
                            };
                            let prost = proto::SubscribeUpdateEntry {
                                slot,
                                index,
                                num_hashes,
                                hash: hash.to_vec(),
                                executed_transaction_count,
                                starting_transaction_index,
                            };
                            assert_encoding(
                                &ProtobufMessage::Entry { entry: &entry },
                                UpdateOneof::Entry(prost),
                                created_at,
                                "entry",
                            );
                        }
                    }
                }
            }
        }
    }
}

#[test]
fn test_encode_slot() {
    let created_at = now();
    for slot in [0, 42, 310629080] {
        for parent in [None, Some(0), Some(42)] {
            for (status, number, dead_error) in [
                (GeyserSlotStatus::Processed, proto::SlotStatus::SlotProcessed, None),
                (GeyserSlotStatus::Rooted, proto::SlotStatus::SlotFinalized, None),
                (GeyserSlotStatus::Confirmed, proto::SlotStatus::SlotConfirmed, None),
                (
                    GeyserSlotStatus::FirstShredReceived,
                    proto::SlotStatus::SlotFirstShredReceived,
                    None,
                ),
                (GeyserSlotStatus::Completed, proto::SlotStatus::SlotCompleted, None),
                (GeyserSlotStatus::CreatedBank, proto::SlotStatus::SlotCreatedBank, None),
                (
                    GeyserSlotStatus::Dead("".to_owned()),
                    proto::SlotStatus::SlotDead,
                    Some("".to_owned()),
                ),
                (
                    GeyserSlotStatus::Dead("42".to_owned()),
                    proto::SlotStatus::SlotDead,
                    Some("42".to_owned()),
                ),
            ] {
                let prost = proto::SubscribeUpdateSlot {
                    slot,
                    parent,
                    status: number as i32,
                    dead_error,
                };
                assert_encoding(
                    &ProtobufMessage::Slot { slot, parent, status: &status },
                    UpdateOneof::Slot(prost),
                    created_at,
                    "slot",
                );
            }
        }
    }
}

fn transaction() -> confirmed_block::Transaction {
    confirmed_block::Transaction {
        signatures: vec![SIGNATURE.to_vec()],
        message: Some(confirmed_block::Message {
            header: Some(confirmed_block::MessageHeader {
                num_required_signatures: 1,
                num_readonly_signed_accounts: 0,
                num_readonly_unsigned_accounts: 1,
            }),
            account_keys: vec![vec![1; 32], vec![2; 32], vec![3; 32]],
            recent_blockhash: vec![9; 32],
            instructions: vec![confirmed_block::CompiledInstruction {
                program_id_index: 2,
                accounts: vec![0, 1],
                data: vec![42; 12],
            }],
            versioned: true,
            address_table_lookups: vec![confirmed_block::MessageAddressTableLookup {
                account_key: vec![4; 32],
                writable_indexes: vec![1, 2],
                readonly_indexes: vec![3],
            }],
            ..Default::default()
        }),
    }
}

#[test]
fn test_encode_transaction() {
    let created_at = now();
    for err in [None, Some(confirmed_block::TransactionError { err: vec![8, 0, 0, 0] })] {
        for (slot, index, is_vote) in [(0, 0, false), (310_629_080, 1067, true)] {
            let meta = confirmed_block::TransactionStatusMeta {
                err: err.clone(),
                fee: 5000,
                pre_balances: vec![1, 2, 3],
                post_balances: vec![3, 2, 1],
                log_messages: vec!["log".to_owned()],
                loaded_writable_addresses: vec![vec![5; 32], vec![6; 32]],
                loaded_readonly_addresses: vec![vec![7; 32]],
                compute_units_consumed: Some(150),
                ..Default::default()
            };
            let transaction_info = SubscribeUpdateTransactionInfo {
                signature: SIGNATURE.to_vec(),
                is_vote,
                transaction: Some(Transaction {
                    account_keys: Some(vec![vec![1; 32], vec![2; 32], vec![3; 32]]),
                    encoded: transaction().encode_to_vec(),
                }),
                meta: Some(TransactionStatusMeta {
                    err: err.clone().map(|e| TransactionError { err: e.err }),
                    loaded_writable_addresses: vec![vec![5; 32], vec![6; 32]],
                    loaded_readonly_addresses: vec![vec![7; 32]],
                    encoded: meta.encode_to_vec(),
                }),
                index,
            };
            let prost = proto::SubscribeUpdateTransaction {
                transaction: Some(proto::SubscribeUpdateTransactionInfo {
                    signature: SIGNATURE.to_vec(),
                    is_vote,
                    transaction: Some(transaction()),
                    meta: Some(meta),
                    index,
                }),
                slot,
            };
            assert_encoding(
                &ProtobufMessage::Transaction { slot, transaction: &transaction_info },
                UpdateOneof::Transaction(prost),
                created_at,
                "transaction",
            );
        }
    }
}

#[test]
fn test_encode_deshred_transaction() {
    let created_at = now();
    for (slot, loaded, start, end) in [
        (0, None, 0, 0),
        (310_629_080, Some((vec![vec![5u8; 32], vec![6; 32]], vec![vec![7u8; 32]])), 1, 4),
    ] {
        let (writable, readonly) = loaded.clone().unwrap_or_default();
        let tx = ReplicaDeshredTransactionInfo {
            signature: SIGNATURE.to_vec(),
            is_vote: slot == 0,
            transaction: transaction().encode_to_vec(),
            loaded_addresses: loaded
                .map(|(writable, readonly)| LoadedAddresses { writable, readonly }),
            completed_data_set_starting_shred_index: start,
            completed_data_set_ending_shred_index_exclusive: end,
        };
        let prost = proto::SubscribeUpdateDeshredTransaction {
            transaction: Some(proto::SubscribeUpdateDeshredTransactionInfo {
                signature: SIGNATURE.to_vec(),
                is_vote: slot == 0,
                transaction: Some(transaction()),
                loaded_writable_addresses: writable,
                loaded_readonly_addresses: readonly,
                completed_data_set_starting_shred_index: start,
                completed_data_set_ending_shred_index_exclusive: end,
            }),
            slot,
        };
        assert_richat_encoding(
            &ProtobufMessage::DeshredTransaction { slot, transaction: &tx },
            100,
            prost.encode_to_vec(),
            created_at,
            "deshred transaction",
        );
    }
}

fn contact_infos() -> Vec<ReplicaContactInfo> {
    let v4 = |port: u16| Some(format!("10.1.2.3:{port}"));
    let v6 = |port: u16| Some(format!("[ffff:ffff:ffff:ffff:ffff:ffff:ffff:ffff]:{port}"));
    vec![
        ReplicaContactInfo {
            pubkey: vec![11; 32],
            wallclock: 1_757_500_000_000,
            outset: 1_757_400_000_000_000,
            shred_version: 50093,
            version_major: 4,
            version_minor: 3,
            version_patch: 0,
            version_commit: 0xdead_beef,
            version_feature_set: 0x1234_5678,
            version_client_id: 3,
            gossip: v4(8001),
            tpu_quic: v4(8009),
            tpu_forwards_quic: v4(8010),
            tpu_vote_udp: v4(8005),
            tpu_vote_quic: v4(8006),
            tvu_udp: v4(8002),
            tvu_quic: v4(8003),
            serve_repair_udp: v4(8008),
            serve_repair_quic: v4(8007),
            rpc: v4(8899),
            rpc_pubsub: v4(8900),
            alpenglow: v4(8011),
        },
        ReplicaContactInfo {
            pubkey: vec![12; 32],
            wallclock: u64::MAX,
            outset: 0,
            shred_version: u16::MAX,
            version_major: u16::MAX,
            version_minor: 0,
            version_patch: u16::MAX,
            version_commit: u32::MAX,
            version_feature_set: 0,
            version_client_id: u16::MAX,
            gossip: v6(u16::MAX),
            tpu_quic: None,
            tpu_forwards_quic: v6(1),
            tpu_vote_udp: None,
            tpu_vote_quic: v6(0),
            tvu_udp: None,
            tvu_quic: None,
            serve_repair_udp: None,
            serve_repair_quic: None,
            rpc: Some("[::1]:8899".to_owned()),
            // longest possible text: full IPv6 + max scope id + max port
            rpc_pubsub: Some(
                "[ffff:ffff:ffff:ffff:ffff:ffff:ffff:ffff%4294967295]:65535".to_owned(),
            ),
            alpenglow: None,
        },
        ReplicaContactInfo {
            pubkey: vec![0; 32],
            wallclock: 0,
            outset: 0,
            shred_version: 0,
            version_major: 0,
            version_minor: 0,
            version_patch: 0,
            version_commit: 0,
            version_feature_set: 0,
            version_client_id: 0,
            gossip: None,
            tpu_quic: None,
            tpu_forwards_quic: None,
            tpu_vote_udp: None,
            tpu_vote_quic: None,
            tvu_udp: None,
            tvu_quic: None,
            serve_repair_udp: None,
            serve_repair_quic: None,
            rpc: None,
            rpc_pubsub: None,
            alpenglow: None,
        },
    ]
}

#[test]
fn test_encode_contact_info() {
    let created_at = now();
    for c in contact_infos() {
        let prost = proto::SubscribeUpdateContactInfoNode {
            pubkey: c.pubkey.clone(),
            wallclock: c.wallclock,
            outset: c.outset,
            shred_version: c.shred_version.into(),
            version_major: c.version_major.into(),
            version_minor: c.version_minor.into(),
            version_patch: c.version_patch.into(),
            version_commit: c.version_commit,
            version_feature_set: c.version_feature_set,
            version_client_id: c.version_client_id.into(),
            gossip: c.gossip.clone(),
            tpu_quic: c.tpu_quic.clone(),
            tpu_forwards_quic: c.tpu_forwards_quic.clone(),
            tpu_vote_udp: c.tpu_vote_udp.clone(),
            tpu_vote_quic: c.tpu_vote_quic.clone(),
            tvu_udp: c.tvu_udp.clone(),
            tvu_quic: c.tvu_quic.clone(),
            serve_repair_udp: c.serve_repair_udp.clone(),
            serve_repair_quic: c.serve_repair_quic.clone(),
            rpc: c.rpc.clone(),
            rpc_pubsub: c.rpc_pubsub.clone(),
            alpenglow: c.alpenglow.clone(),
        };
        assert_richat_encoding(
            &ProtobufMessage::ContactInfo { info: &c },
            101,
            prost.encode_to_vec(),
            created_at,
            "contact info",
        );

        let prost = proto::SubscribeUpdateContactInfoRemoved { pubkey: c.pubkey.clone() };
        assert_richat_encoding(
            &ProtobufMessage::ContactInfoRemoved { pubkey: &c.pubkey },
            102,
            prost.encode_to_vec(),
            created_at,
            "contact info removed",
        );
    }
}

#[test]
fn test_encode_block_footer() {
    let created_at = now();
    for (slot, bank_id, view) in [
        (
            362_000_001,
            42,
            BlockFooterView {
                version: 1,
                bank_hash: [7; 32],
                block_producer_time_nanos: 1_757_500_000_000_000_000,
                block_user_agent: b"agave/4.3.0".to_vec(),
                footer: vec![1, 2, 3, 4],
            },
        ),
        (
            0,
            0,
            BlockFooterView {
                version: 1,
                bank_hash: [0; 32],
                block_producer_time_nanos: 0,
                block_user_agent: vec![],
                footer: vec![1],
            },
        ),
    ] {
        let mut payload = Vec::new();
        if slot != 0 {
            prost::encoding::uint64::encode(1, &slot, &mut payload);
        }
        if bank_id != 0 {
            prost::encoding::uint64::encode(2, &bank_id, &mut payload);
        }
        prost::encoding::uint32::encode(3, &view.version, &mut payload);
        prost::encoding::bytes::encode(4, &view.bank_hash.to_vec(), &mut payload);
        if view.block_producer_time_nanos != 0 {
            prost::encoding::uint64::encode(5, &view.block_producer_time_nanos, &mut payload);
        }
        if !view.block_user_agent.is_empty() {
            prost::encoding::bytes::encode(6, &view.block_user_agent, &mut payload);
        }
        prost::encoding::bytes::encode(7, &view.footer, &mut payload);
        assert_richat_encoding(
            &ProtobufMessage::BlockFooter { slot, bank_id, block_footer: &view },
            103,
            payload,
            created_at,
            "block footer",
        );
    }
}

#[test]
fn test_encode_update_parent() {
    let created_at = now();
    for (slot, cleared_bank_id, index, parent_slot, parent_block_id) in [
        (362_000_002, 43, 96, 362_000_000, [9; 32]),
        (0, 0, 0, 0, [0; 32]),
    ] {
        let payload = |second: u64| {
            let mut payload = Vec::new();
            for (tag, value) in [(1, slot), (2, second), (3, parent_slot)] {
                if value != 0 {
                    prost::encoding::uint64::encode(tag, &value, &mut payload);
                }
            }
            prost::encoding::bytes::encode(4, &parent_block_id.to_vec(), &mut payload);
            payload
        };
        let info =
            ReplicaEntryUpdateParentInfo { slot, cleared_bank_id, parent_slot, parent_block_id };
        assert_richat_encoding(
            &ProtobufMessage::EntryUpdateParent { info: &info },
            104,
            payload(cleared_bank_id),
            created_at,
            "entry update parent",
        );

        let info = ReplicaDeshredUpdateParentInfo {
            slot,
            update_parent_fec_set_index: index,
            parent_slot,
            parent_block_id,
        };
        assert_richat_encoding(
            &ProtobufMessage::DeshredUpdateParent { info: &info },
            105,
            payload(index.into()),
            created_at,
            "deshred update parent",
        );
    }
}

#[test]
fn slot_of_a_message() {
    let status = GeyserSlotStatus::Rooted;
    let msg = ProtobufMessage::Slot { slot: 42, parent: None, status: &status };
    assert_eq!(msg.get_slot(), Some(42));
    assert_eq!(ProtobufMessage::ContactInfoRemoved { pubkey: &[1; 32] }.get_slot(), None);
}

#[test]
fn slot_update_in_bytes() {
    let status = GeyserSlotStatus::Dead("no".to_owned());
    let msg = ProtobufMessage::Slot { slot: 300, parent: Some(0), status: &status };
    let bytes = msg.encode_raw(Timestamp { seconds: 5, nanos: 0 });
    assert_eq!(
        bytes,
        vec![0x1a, 11, 0x08, 0xac, 0x02, 0x10, 0, 0x18, 6, 0x22, 2, b'n', b'o', 0x5a, 2, 0x08, 5]
    );
}
