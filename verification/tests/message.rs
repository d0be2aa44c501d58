//! Messages made of updates by either parser, and updates made of messages.
use richat::account::MessageAccount;
use richat::config::{ConfigFilter, ConfigFilterAccounts, ConfigFilterAccountsDataSlice};
use richat::filter::Filter;
use richat::geyser::CommitmentLevel;
use richat::message::{Message, MessageParseError, MessageParserEncoding};
use yellowstone_grpc_proto::geyser as proto;

const MESSAGE: &str = "0a0012af010aa6010a2088f1ffa3a2dfe617bdc4e3573251a322e3fcae81e5a457390e64751c00a465e210e0d54a1a2006aa09548b50476ad462f91f89a3015033264fc9abd5270020a9d142334742fb28ffffffffffffffffff013208c921f474e044612838e3e1acc2b53042405bd620fab28d3c0b78b3ead9f04d1c4d6dffeac4ffa7c679a6570b0226557c10b4c4016d937e06044b4e49d9d7916524d5dfa26297c5f638c3d11f846410bc0510e5ddaca2015a0c08e1c79ec10610ebef838601";

fn parse(data: Vec<u8>, parser: MessageParserEncoding) -> MessageAccount {
    if let Message::Account(msg) = Message::parse(data, parser).expect("valid message") {
        assert!(
            match parser {
                MessageParserEncoding::Prost => matches!(msg, MessageAccount::Prost { .. }),
                MessageParserEncoding::Limited => matches!(msg, MessageAccount::Limited { .. }),
            },
            "unexpected msg encoding"
        );

        msg
    } else {
        panic!("expected account message");
    }
}

fn encode(msg: &MessageAccount, data_slice: Option<(u64, u64)>) -> Vec<u8> {
    let mut config = ConfigFilter::none();
    config.accounts.push((
        "".to_owned(),
        ConfigFilterAccounts {
            account: Vec::new(),
            owner: Vec::new(),
            filters: Vec::new(),
            nonempty_txn_signature: None,
        },
    ));
    if let Some((offset, length)) = data_slice {
        config.accounts_data_slice.push(ConfigFilterAccountsDataSlice { offset, length });
    }
    let filter = Filter::new(&config);

    let message = Message::Account(msg.clone());
    let updates = filter.get_updates_ref(message.as_message_ref(), CommitmentLevel::Processed);
    assert_eq!(updates.as_slice().len(), 1, "unexpected number of updates");
    updates.as_slice()[0].encode_to_vec()
}

#[test]
fn test_richat_update_is_skipped() {
    let mut data = Vec::new();
    prost::encoding::message::encode(
        11,
        &prost_types::Timestamp { seconds: 1_757_500_000, nanos: 42 },
        &mut data,
    );
    prost::encoding::message::encode(
        102,
        &proto::SubscribeUpdateContactInfoRemoved { pubkey: vec![42; 32] },
        &mut data,
    );

    for parser in [MessageParserEncoding::Limited, MessageParserEncoding::Prost] {
        assert!(
            matches!(
                Message::parse(data.clone(), parser),
                Err(MessageParseError::InvalidUpdateMessage("Richat"))
            ),
            "unexpected result for {parser:?}"
        );
    }
}

fn check_limited(msg: &MessageAccount) {
    let mut msg2 = parse(encode(msg, None), MessageParserEncoding::Limited);
    if let (
        MessageAccount::Limited { buffer, .. },
        MessageAccount::Limited { buffer: buffer2, .. },
    ) = (msg, &mut msg2)
    {
        *buffer2 = buffer.clone(); // ignore buffer
    }
    assert_eq!(*msg, msg2, "write version update failed");
    // check with data slice
    let mut msg2 = parse(encode(msg, Some((1, 3))), MessageParserEncoding::Limited);
    assert_eq!(msg.write_version(), msg2.write_version());
    assert_eq!(&msg.data()[1..4], msg2.data());
    if let (
        MessageAccount::Limited { buffer, txn_signature_offset, write_version, data, range, .. },
        MessageAccount::Limited {
            buffer: buffer2,
            txn_signature_offset: txn_signature_offset2,
            write_version: write_version2,
            data: data2,
            range: range2,
            ..
        },
    ) = (msg, &mut msg2)
    {
        let txn_offset = txn_signature_offset.unwrap();
        let txn_offset2 = txn_signature_offset2.unwrap();
        assert_eq!(
            &buffer[txn_offset..txn_offset + 64],
            &buffer2[txn_offset2..txn_offset2 + 64]
        );
        *buffer2 = buffer.clone(); // ignore buffer
        *txn_signature_offset2 = *txn_signature_offset;
        *write_version2 = *write_version;
        *data2 = data.clone();
        *range2 = range.clone();
    }
    assert_eq!(*msg, msg2, "write version update failed");
}

#[test]
fn test_limited() {
    let mut msg = parse(
        const_hex::decode(MESSAGE).expect("valid hex"),
        MessageParserEncoding::Limited,
    );
    assert_eq!(msg.write_version(), 1663633666275, "valid write version");

    msg.update_write_version(1);
    assert_eq!(msg.write_version(), 1, "dec valid write version");
    check_limited(&msg);

    msg.update_write_version(u64::MAX);
    assert_eq!(msg.write_version(), u64::MAX, "inc valid write version");
    check_limited(&msg);
}

#[test]
fn test_prost() {
    let mut msg = parse(
        const_hex::decode(MESSAGE).expect("valid hex"),
        MessageParserEncoding::Prost,
    );
    assert_eq!(msg.write_version(), 1663633666275, "valid write version");

    msg.update_write_version(1);
    assert_eq!(msg.write_version(), 1, "dec valid write version");
    let msg2 = parse(encode(&msg, None), MessageParserEncoding::Prost);
    assert_eq!(msg, msg2, "write version update failed");

    msg.update_write_version(u64::MAX);
    assert_eq!(msg.write_version(), u64::MAX, "inc valid write version");
    let msg2 = parse(encode(&msg, None), MessageParserEncoding::Prost);
    assert_eq!(msg, msg2, "write version update failed");
}

#[test]
fn places_lie_within_the_range() {
    let msg = parse(
        const_hex::decode(MESSAGE).expect("valid hex"),
        MessageParserEncoding::Limited,
    );
    if let MessageAccount::Limited {
        buffer,
        range,
        account_offset,
        data,
        write_version,
        txn_signature_offset,
        ..
    } = msg
    {
        assert!(range.start < account_offset && account_offset < range.end);
        assert!(range.start <= data.start && data.end <= range.end && range.end <= buffer.len());
        assert!(range.contains(&write_version));
        let offset = txn_signature_offset.expect("signature");
        assert!(range.start <= offset && offset + 64 <= range.end);
    }
}

#[test]
fn the_last_write_version_wins() {
    let data = const_hex::decode(MESSAGE).expect("valid hex");
    for parser in [MessageParserEncoding::Limited, MessageParserEncoding::Prost] {
        for (first, last) in [(1, u64::MAX), (u64::MAX, 1), (127, 128)] {
            let mut twice = parse(data.clone(), parser);
            twice.update_write_version(first);
            twice.update_write_version(last);
            let mut once = parse(data.clone(), parser);
            once.update_write_version(last);
            assert_eq!(twice.write_version(), last);
            assert_eq!(encode(&twice, None), encode(&once, None));
            assert_eq!(twice.data(), once.data());
            assert_eq!(twice.txn_signature(), once.txn_signature());
        }
    }
}
