//! What is no message, and blocks made of messages.
use prost::Message as _;
use richat::block::{ConfirmedBlock, Reward};
use richat::decode::UpdateOneofLimitedDecode;
use richat::error::DecodeErrorKind;
use richat::message::{
    Message, MessageBlockCreatedAt, MessageParseError, MessageParserEncoding,
};
use richat::plugin::SocketAddrBuffer;
use richat::readings::{
    transaction_key, Readings, TransactionWithStatusMeta, VersionedTransactionWithStatusMeta,
};
use std::sync::Arc;
use yellowstone_grpc_proto::geyser as proto;
use yellowstone_grpc_proto::geyser::subscribe_update::UpdateOneof;
use yellowstone_grpc_proto::solana::storage::confirmed_block;

const LIMITED: MessageParserEncoding = MessageParserEncoding::Limited;
const PROST: MessageParserEncoding = MessageParserEncoding::Prost;

fn time() -> prost_types::Timestamp {
    prost_types::Timestamp { seconds: 1_757_500_000, nanos: 42_000_000 }
}

fn encoded(update: UpdateOneof) -> Vec<u8> {
    proto::SubscribeUpdate { filters: vec![], update_oneof: Some(update), created_at: Some(time()) }
        .encode_to_vec()
}

fn error(data: &[u8], parser: MessageParserEncoding) -> MessageParseError {
    Message::parse(data.to_vec(), parser).expect_err("no message")
}

#[test]
fn envelopes_that_lack_something() {
    for parser in [LIMITED, PROST] {
        assert!(matches!(
            error(&[], parser),
            MessageParseError::FieldNotDefined("created_at")
        ));
        let only_time = proto::SubscribeUpdate {
            filters: vec!["a".to_owned()],
            update_oneof: None,
            created_at: Some(time()),
        }
        .encode_to_vec();
        assert!(matches!(
            error(&only_time, parser),
            MessageParseError::FieldNotDefined("update_oneof")
        ));
        let no_account = encoded(UpdateOneof::Account(proto::SubscribeUpdateAccount::default()));
        assert!(matches!(error(&no_account, parser), MessageParseError::FieldNotDefined("account")));
        let ping = encoded(UpdateOneof::Ping(proto::SubscribeUpdatePing {}));
        assert!(matches!(error(&ping, parser), MessageParseError::InvalidUpdateMessage("Ping")));
        let pong = encoded(UpdateOneof::Pong(proto::SubscribeUpdatePong { id: 1 }));
        assert!(matches!(error(&pong, parser), MessageParseError::InvalidUpdateMessage("Pong")));
        let status = encoded(UpdateOneof::TransactionStatus(
            proto::SubscribeUpdateTransactionStatus::default(),
        ));
        assert!(matches!(
            error(&status, parser),
            MessageParseError::InvalidUpdateMessage("TransactionStatus")
        ));
        let slot = encoded(UpdateOneof::Slot(proto::SubscribeUpdateSlot {
            status: 42,
            ..Default::default()
        }));
        assert!(matches!(error(&slot, parser), MessageParseError::InvalidEnumValue(42)));
    }
}

#[test]
fn bytes_that_cannot_be_decoded() {
    let kind = |data: &[u8]| match error(data, LIMITED) {
        MessageParseError::Prost(error) => error.kind,
        other => panic!("unexpected {other:?}"),
    };
    assert_eq!(kind(&[0x80]), DecodeErrorKind::InvalidKey);
    // the first field is cut short
    assert_eq!(kind(&[0x1a, 5, 0]), DecodeErrorKind::BufferUnderflow);
    // an update is no varint
    assert_eq!(kind(&[0x18, 1]), DecodeErrorKind::UnexpectedWireType);
    assert!(matches!(error(&[0x80], PROST), MessageParseError::Prost(_)));
    // a public key of another length
    let mut info = proto::SubscribeUpdateAccountInfo {
        pubkey: vec![1; 31],
        owner: vec![2; 32],
        ..Default::default()
    };
    let update = |info: &proto::SubscribeUpdateAccountInfo| {
        encoded(UpdateOneof::Account(proto::SubscribeUpdateAccount {
            account: Some(info.clone()),
            slot: 1,
            is_startup: false,
        }))
    };
    assert_eq!(kind(&update(&info)), DecodeErrorKind::InvalidPubkeyLength);
    assert!(matches!(error(&update(&info), PROST), MessageParseError::InvalidPubkey));
    info.pubkey.push(1);
    info.txn_signature = Some(vec![3; 63]);
    assert_eq!(kind(&update(&info)), DecodeErrorKind::InvalidSignatureLength);
    assert_eq!(DecodeErrorKind::InvalidPubkeyLength.description(), "invalid pubkey length");
    // the same update twice
    let slot = {
        let mut data = Vec::new();
        let slot = proto::SubscribeUpdateSlot { slot: 1, ..Default::default() };
        prost::encoding::message::encode(3, &slot, &mut data);
        prost::encoding::message::encode(3, &slot, &mut data);
        data
    };
    assert_eq!(kind(&slot), DecodeErrorKind::MergeNotSupported);
}

fn transaction_info() -> proto::SubscribeUpdateTransactionInfo {
    proto::SubscribeUpdateTransactionInfo {
        signature: vec![4; 64],
        is_vote: true,
        transaction: Some(confirmed_block::Transaction {
            signatures: vec![vec![4; 64]],
            message: Some(confirmed_block::Message {
                account_keys: vec![vec![1; 32]],
                ..Default::default()
            }),
        }),
        meta: Some(confirmed_block::TransactionStatusMeta { fee: 5, ..Default::default() }),
        index: 9,
    }
}

fn parts(
    parser: MessageParserEncoding,
) -> (Message, Message, Message, Message) {
    let account = encoded(UpdateOneof::Account(proto::SubscribeUpdateAccount {
        account: Some(proto::SubscribeUpdateAccountInfo {
            pubkey: vec![1; 32],
            owner: vec![2; 32],
            write_version: 1,
            ..Default::default()
        }),
        slot: 7,
        is_startup: false,
    }));
    let transaction = encoded(UpdateOneof::Transaction(proto::SubscribeUpdateTransaction {
        transaction: Some(transaction_info()),
        slot: 7,
    }));
    let entry = encoded(UpdateOneof::Entry(proto::SubscribeUpdateEntry {
        slot: 7,
        hash: vec![1; 32],
        ..Default::default()
    }));
    let meta = encoded(UpdateOneof::BlockMeta(proto::SubscribeUpdateBlockMeta {
        slot: 7,
        blockhash: "hash".to_owned(),
        rewards: Some(confirmed_block::Rewards {
            rewards: vec![confirmed_block::Reward { lamports: 3, ..Default::default() }],
            num_partitions: Some(confirmed_block::NumPartitions { num_partitions: 4 }),
        }),
        block_height: Some(confirmed_block::BlockHeight { block_height: 5 }),
        parent_slot: 6,
        parent_blockhash: "parent".to_owned(),
        executed_transaction_count: 1,
        entries_count: 1,
        ..Default::default()
    }));
    (
        Message::parse(account, parser).expect("account"),
        Message::parse(transaction, parser).expect("transaction"),
        Message::parse(entry, parser).expect("entry"),
        Message::parse(meta, parser).expect("block meta"),
    )
}

fn make_block(
    parser: MessageParserEncoding,
    meta_parser: MessageParserEncoding,
) -> Result<Message, MessageParseError> {
    let (account, transaction, entry, _) = parts(parser);
    let (_, _, _, meta) = parts(meta_parser);
    match (account, transaction, entry, meta) {
        (
            Message::Account(account),
            Message::Transaction(transaction),
            Message::Entry(entry),
            Message::BlockMeta(meta),
        ) => {
            let created_at = meta.created_at();
            Message::create_block(
                vec![Arc::new(account)],
                vec![Arc::new(transaction)],
                vec![Arc::new(entry)],
                Arc::new(meta),
                created_at,
            )
        }
        _ => panic!("unexpected messages"),
    }
}

#[test]
fn blocks_are_made_of_parts_of_one_parser() {
    for parser in [LIMITED, PROST] {
        let message = make_block(parser, parser).expect("block");
        assert_eq!(message.slot(), 7);
        let created_at = message.created_at();
        assert_eq!(created_at.encoding(), parser);
        assert_eq!(created_at.as_millis(), 1_757_500_000_042);
        let Message::Block(block) = message else { panic!("expected block") };
        assert_eq!(block.encoding(), parser);
        let mut readings = Readings::new();
        assert_eq!(block.as_confirmed_block(&readings).unwrap_err(), "NotConverted");
        let info = block.transactions[0].transaction().expect("transaction");
        let versioned = VersionedTransactionWithStatusMeta {
            transaction: transaction_info().transaction.unwrap().encode_to_vec(),
            meta: transaction_info().meta.unwrap().encode_to_vec(),
        };
        readings.transactions.push((
            transaction_key(&info),
            Ok(TransactionWithStatusMeta::Complete(versioned.clone())),
        ));
        let reward = |lamports: i64| Reward {
            pubkey: String::new(),
            lamports,
            post_balance: 0,
            reward_type: 0,
            commission: String::new(),
        };
        readings.rewards.push((reward(3), Err("failed to parse reward")));
        assert_eq!(block.as_confirmed_block(&readings).unwrap_err(), "failed to parse reward");
        readings.rewards.push((reward(3), Ok(reward(4))));
        let confirmed: ConfirmedBlock =
            block.as_confirmed_block(&readings).expect("confirmed block");
        assert_eq!(confirmed.blockhash, "hash");
        assert_eq!(confirmed.previous_blockhash, "parent");
        assert_eq!(confirmed.parent_slot, 6);
        assert_eq!(confirmed.rewards.len(), 1);
        assert_eq!(confirmed.rewards[0].lamports, 4);
        assert_eq!(confirmed.num_partitions, Some(4));
        assert_eq!(confirmed.block_height, Some(5));
        assert_eq!(confirmed.transactions.len(), 1);
        assert_eq!(confirmed.transactions[0], versioned);
        let missing = TransactionWithStatusMeta::MissingMetadata(versioned.transaction);
        readings.transactions.push((transaction_key(&info), Ok(missing)));
        assert_eq!(block.as_confirmed_block(&readings).unwrap_err(), "FieldNotDefined");
        readings.transactions.push((transaction_key(&info), Err("failed to parse message")));
        assert_eq!(block.as_confirmed_block(&readings).unwrap_err(), "failed to parse message");
        let meta = block.transactions[0].transaction_meta().expect("meta");
        assert_eq!(meta.encoded, transaction_info().meta.unwrap().encode_to_vec());
    }
    for (parser, meta_parser) in [(LIMITED, PROST), (PROST, LIMITED)] {
        assert!(matches!(
            make_block(parser, meta_parser),
            Err(MessageParseError::IncompatibleEncoding)
        ));
    }
}

#[test]
fn messages_say_what_the_updates_said() {
    for parser in [LIMITED, PROST] {
        let (account, transaction, entry, meta) = parts(parser);
        let Message::Account(account) = account else { panic!("expected account") };
        assert_eq!((account.slot(), account.write_version()), (7, 1));
        assert_eq!(account.pubkey().bytes, [1; 32]);
        assert_eq!(account.txn_signature(), None);
        let Message::Transaction(transaction) = transaction else { panic!("expected transaction") };
        assert!(transaction.vote() && !transaction.failed());
        assert_eq!((transaction.slot(), transaction.index()), (7, 9));
        assert_eq!(transaction.signature().bytes, [4; 64]);
        let Message::Entry(entry) = entry else { panic!("expected entry") };
        assert_eq!((entry.slot(), entry.index()), (7, 0));
        let Message::BlockMeta(meta) = meta else { panic!("expected block meta") };
        assert_eq!((meta.slot(), meta.block_height(), meta.entries_count()), (7, 5, 1));
        assert_eq!(meta.blockhash(), "hash");
        let slot = encoded(UpdateOneof::Slot(proto::SubscribeUpdateSlot {
            slot: 7,
            parent: Some(0),
            status: proto::SlotStatus::SlotProcessed as i32,
            dead_error: None,
        }));
        let Message::Slot(slot) = Message::parse(slot, parser).expect("slot") else {
            panic!("expected slot")
        };
        assert_eq!((slot.slot(), slot.parent(), slot.dead_error()), (7, Some(0), None));
        assert!(matches!(
            (parser, slot.created_at()),
            (LIMITED, MessageBlockCreatedAt::Limited(_)) | (PROST, MessageBlockCreatedAt::Prost(_))
        ));
    }
}

#[test]
fn the_buffer_of_a_socket_takes_what_fits() {
    let longest = "[ffff:ffff:ffff:ffff:ffff:ffff:ffff:ffff%4294967295]:65535";
    let mut buffer = SocketAddrBuffer::new();
    assert!(buffer.write_str(&longest[..20]));
    assert!(buffer.write_str(&longest[20..]));
    assert_eq!(buffer.as_bytes(), longest.as_bytes());
    assert!(!buffer.write_str("x"));
    assert_eq!(buffer.as_bytes(), longest.as_bytes());
    assert_eq!(SocketAddrBuffer::format(longest).as_bytes(), longest.as_bytes());
    assert_eq!(SocketAddrBuffer::format("").as_bytes(), b"");
}

#[test]
fn an_account_without_a_write_version_has_version_zero() {
    let data = vec![0x12, 0x04, 0x0a, 0x02, 0x10, 0x05, 0x5a, 0x02, 0x08, 0x01];
    let Message::Account(account) = Message::parse(data, LIMITED).expect("account") else {
        panic!("expected account")
    };
    assert_eq!((account.lamports(), account.write_version()), (5, 0));
    for parser in [LIMITED, PROST] {
        let data = encoded(UpdateOneof::Account(proto::SubscribeUpdateAccount {
            account: Some(proto::SubscribeUpdateAccountInfo {
                pubkey: vec![1; 32],
                owner: vec![2; 32],
                data: vec![9, 8],
                ..Default::default()
            }),
            slot: 7,
            is_startup: false,
        }));
        let Message::Account(account) = Message::parse(data, parser).expect("account") else {
            panic!("expected account")
        };
        assert_eq!(account.write_version(), 0);
        assert_eq!(account.data(), [9, 8]);
    }
}

#[test]
fn the_error_of_a_dead_slot_is_told() {
    let data = vec![0x1a, 0x05, 0x08, 0x07, 0x22, 0x01, 0x78, 0x5a, 0x02, 0x08, 0x01];
    for parser in [LIMITED, PROST] {
        let Message::Slot(slot) = Message::parse(data.clone(), parser).expect("slot") else {
            panic!("expected slot")
        };
        assert_eq!((slot.slot(), slot.dead_error()), (7, Some("x")));
        let data = encoded(UpdateOneof::Slot(proto::SubscribeUpdateSlot {
            slot: 300,
            parent: Some(299),
            status: proto::SlotStatus::SlotDead as i32,
            dead_error: Some("was dead on arrival".to_owned()),
        }));
        let Message::Slot(slot) = Message::parse(data, parser).expect("slot") else {
            panic!("expected slot")
        };
        assert_eq!(slot.dead_error(), Some("was dead on arrival"));
    }
    // bytes that are no text
    let mut data = data;
    data[6] = 0xff;
    let Message::Slot(slot) = Message::parse(data, LIMITED).expect("slot") else {
        panic!("expected slot")
    };
    assert_eq!(slot.dead_error(), None);
}

#[test]
fn both_parsers_say_the_same() {
    let mut info = transaction_info();
    info.meta = Some(confirmed_block::TransactionStatusMeta {
        err: Some(confirmed_block::TransactionError { err: vec![8, 0, 0, 0] }),
        fee: 5000,
        loaded_writable_addresses: vec![vec![3; 32], vec![1; 32]],
        loaded_readonly_addresses: vec![vec![5; 32]],
        ..Default::default()
    });
    let data = encoded(UpdateOneof::Transaction(proto::SubscribeUpdateTransaction {
        transaction: Some(info),
        slot: 7,
    }));
    let [a, b] = [LIMITED, PROST].map(|parser| {
        match Message::parse(data.clone(), parser).expect("transaction") {
            Message::Transaction(m) => m,
            other => panic!("unexpected {other:?}"),
        }
    });
    assert_eq!((a.slot(), a.vote(), a.index()), (b.slot(), b.vote(), b.index()));
    assert_eq!(a.error().as_ref().unwrap().err, vec![8, 0, 0, 0]);
    assert_eq!(b.error().as_ref().unwrap().err, vec![8, 0, 0, 0]);
    assert_eq!((a.account_keys().len(), b.account_keys().len()), (3, 3));
    assert!(a.account_keys().is_subset(b.account_keys()));
    // a signature of another length is no transaction of the limited parser
    let mut info = transaction_info();
    info.signature = vec![4; 63];
    let data = encoded(UpdateOneof::Transaction(proto::SubscribeUpdateTransaction {
        transaction: Some(info),
        slot: 7,
    }));
    assert!(Message::parse(data.clone(), PROST).is_ok());
    assert!(matches!(
        error(&data, LIMITED),
        MessageParseError::Prost(e) if e.kind == DecodeErrorKind::InvalidSignatureLength
    ));
    let account = |txn_signature| {
        encoded(UpdateOneof::Account(proto::SubscribeUpdateAccount {
            account: Some(proto::SubscribeUpdateAccountInfo {
                pubkey: vec![1; 32],
                owner: vec![2; 32],
                lamports: 3,
                write_version: 300,
                txn_signature,
                ..Default::default()
            }),
            slot: 7,
            is_startup: true,
        }))
    };
    assert!(matches!(
        error(&account(Some(vec![])), LIMITED),
        MessageParseError::Prost(e) if e.kind == DecodeErrorKind::InvalidSignatureLength
    ));
    let [a, b] = [LIMITED, PROST].map(|parser| {
        match Message::parse(account(Some(vec![6; 64])), parser).expect("account") {
            Message::Account(m) => m,
            other => panic!("unexpected {other:?}"),
        }
    });
    assert_eq!((a.lamports(), a.write_version()), (3, 300));
    assert_eq!((b.lamports(), b.write_version()), (3, 300));
    assert_eq!((a.txn_signature(), b.txn_signature()), (Some(&[6; 64][..]), Some(&[6; 64][..])));
}

#[test]
fn an_update_that_cannot_be_taken_leaves_the_field() {
    let merge = |field: &mut Option<UpdateOneofLimitedDecode>, tag: u32, mut buf: &[u8]| {
        let len = buf.len();
        let r = UpdateOneofLimitedDecode::merge(field, tag, &mut buf, len);
        (r.map_err(|error| error.kind), buf.to_vec())
    };
    // whatever the tag, a length prefix or bytes are missing
    for tag in [2, 10, 0, 42] {
        for field in [None, Some(UpdateOneofLimitedDecode::Slot(1..2))] {
            let before = field.is_some();
            for (buf, kind, left) in [
                (&[][..], DecodeErrorKind::InvalidVarint, &[][..]),
                (&[0x80, 0x80], DecodeErrorKind::InvalidVarint, &[]),
                (&[3, 1, 2], DecodeErrorKind::BufferUnderflow, &[1, 2]),
            ] {
                let mut after = match &field {
                    Some(UpdateOneofLimitedDecode::Slot(range)) => {
                        Some(UpdateOneofLimitedDecode::Slot(range.clone()))
                    }
                    _ => None,
                };
                assert_eq!(merge(&mut after, tag, buf), (Err(kind), left.to_vec()));
                assert_eq!(matches!(after, Some(UpdateOneofLimitedDecode::Slot(_))), before);
            }
        }
    }
    // the bytes of the same update are taken, and the update is not
    let mut field = Some(UpdateOneofLimitedDecode::Slot(1..2));
    assert_eq!(
        merge(&mut field, 3, &[2, 7, 8, 9]),
        (Err(DecodeErrorKind::MergeNotSupported), vec![9])
    );
    assert!(matches!(&field, Some(UpdateOneofLimitedDecode::Slot(range)) if *range == (1..2)));
    assert_eq!(merge(&mut field, 4, &[2, 7, 8, 9]), (Ok(()), vec![9]));
    assert!(matches!(&field, Some(UpdateOneofLimitedDecode::Transaction(range)) if *range == (1..3)));
}

#[test]
fn what_messages_cost_to_keep() {
    let data = encoded(UpdateOneof::Transaction(proto::SubscribeUpdateTransaction {
        transaction: Some(transaction_info()),
        slot: 7,
    }));
    for parser in [LIMITED, PROST] {
        let Message::Transaction(tx) = Message::parse(data.clone(), parser).expect("message") else {
            panic!("expected transaction")
        };
        let base = tx.size_with(0);
        if parser == LIMITED {
            assert_eq!(base, data.len() * 2);
        }
        assert_eq!(tx.size_with(3), base + 96);
        assert_eq!(tx.size_with(usize::MAX), usize::MAX);
        // there is room for the one key at least
        assert!(tx.key_capacity() >= 1);
        assert_eq!(tx.size(), tx.size_with(tx.key_capacity()));

        let Message::Block(block) = make_block(parser, parser).expect("block") else {
            panic!("expected block")
        };
        let parts = block.accounts[0].size() + block.entries[0].size() + block.block_meta.size();
        assert_eq!(block.size_with(&vec![5]), parts + block.transactions[0].size_with(5));
        assert_eq!(block.size(), parts + block.transactions[0].size());
        assert!(Message::Block(block).size() > parts + 32);
    }
}
