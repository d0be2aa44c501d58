//! The channel: what is pushed is received, in order, as long as it is kept.
use richat::channel::{Polled, RecvError, RichatFilter, Sender, SubscribeError};
use richat::codec::Timestamp;
use richat::config::ConfigChannel;
use richat::geyser::{SubscribeUpdateAccountInfo, SubscribeUpdateEntry};
use richat::protobuf::{GeyserSlotStatus, ProtobufEncoder, ProtobufMessage};

const TIME: Timestamp = Timestamp { seconds: 1_757_500_000, nanos: 42 };

fn channel(max_messages: usize, max_bytes: usize) -> Sender {
    Sender::new(ConfigChannel { encoder: ProtobufEncoder::Raw, max_messages, max_bytes })
}

fn entry(slot: u64) -> SubscribeUpdateEntry {
    SubscribeUpdateEntry {
        slot,
        index: 0,
        num_hashes: 1,
        hash: vec![9; 32],
        executed_transaction_count: 0,
        starting_transaction_index: 0,
    }
}

fn push_entry(sender: &mut Sender, slot: u64) -> Vec<u8> {
    let entry = entry(slot);
    let message = ProtobufMessage::Entry { entry: &entry };
    sender.push(&message, ProtobufEncoder::Raw, TIME);
    message.encode_raw(TIME)
}

fn push_slot(sender: &mut Sender, slot: u64, parent: Option<u64>, status: GeyserSlotStatus) {
    let message = ProtobufMessage::Slot { slot, parent, status: &status };
    sender.push(&message, ProtobufEncoder::Prost, TIME);
}

fn slot_bytes(slot: u64, parent: Option<u64>, status: GeyserSlotStatus) -> Vec<u8> {
    ProtobufMessage::Slot { slot, parent, status: &status }.encode_raw(TIME)
}

#[test]
fn messages_come_in_order() {
    let mut sender = channel(4, 1_000_000);
    let first = push_entry(&mut sender, 1);
    let mut receiver = sender.subscribe(None, None).expect("subscribed");
    let second = push_entry(&mut sender, 2);
    assert_eq!(**receiver.recv_ref(&sender).unwrap().unwrap(), first);
    assert_eq!(**receiver.recv_ref(&sender).unwrap().unwrap(), second);
    assert!(receiver.recv_ref(&sender).unwrap().is_none());
    let third = push_entry(&mut sender, 3);
    assert_eq!(**receiver.recv_ref(&sender).unwrap().unwrap(), third);
}

#[test]
fn replay_from_a_slot() {
    let mut sender = channel(8, 1_000_000);
    assert_eq!(
        sender.subscribe(Some(1), None).err(),
        Some(SubscribeError::NotInitialized)
    );
    push_entry(&mut sender, 5);
    let six = push_entry(&mut sender, 6);
    let five = push_entry(&mut sender, 5);
    assert_eq!(
        sender.subscribe(Some(7), None).err(),
        Some(SubscribeError::SlotNotAvailable { first_available: 5 })
    );
    let mut receiver = sender.subscribe(Some(6), None).expect("subscribed");
    assert_eq!(**receiver.recv_ref(&sender).unwrap().unwrap(), six);
    assert_eq!(**receiver.recv_ref(&sender).unwrap().unwrap(), five);
    assert!(receiver.recv_ref(&sender).unwrap().is_none());
}

#[test]
fn unwanted_messages_are_passed_over() {
    let mut sender = channel(8, 1_000_000);
    push_slot(&mut sender, 1, None, GeyserSlotStatus::Processed);
    let account = SubscribeUpdateAccountInfo {
        pubkey: vec![1; 32],
        lamports: 1,
        owner: vec![2; 32],
        executable: false,
        rent_epoch: 0,
        data: vec![],
        write_version: 1,
        txn_signature: None,
    };
    sender.push(&ProtobufMessage::Account { slot: 1, account: &account }, ProtobufEncoder::Raw, TIME);
    sender.push(&ProtobufMessage::ContactInfoRemoved { pubkey: &[3; 32] }, ProtobufEncoder::Raw, TIME);
    let entry = push_entry(&mut sender, 1);

    let filter = RichatFilter { disable_accounts: true, ..RichatFilter::default() };
    let mut receiver = sender.subscribe(Some(1), Some(filter)).expect("subscribed");
    assert_eq!(
        **receiver.recv_ref(&sender).unwrap().unwrap(),
        slot_bytes(1, None, GeyserSlotStatus::Processed)
    );
    assert_eq!(**receiver.recv_ref(&sender).unwrap().unwrap(), entry);

    let filter = RichatFilter { enable_contact_info: true, disable_entries: true, ..filter };
    let mut receiver = sender.subscribe(Some(1), Some(filter)).expect("subscribed");
    receiver.recv_ref(&sender).unwrap().unwrap();
    assert_eq!(
        **receiver.recv_ref(&sender).unwrap().unwrap(),
        ProtobufMessage::ContactInfoRemoved { pubkey: &[3; 32] }.encode_raw(TIME)
    );
    assert!(receiver.recv_ref(&sender).unwrap().is_none());
}

#[test]
fn a_slow_receiver_lags() {
    let mut sender = channel(2, 1_000_000);
    push_entry(&mut sender, 1);
    let mut receiver = sender.subscribe(Some(1), None).expect("subscribed");
    push_entry(&mut sender, 2);
    push_entry(&mut sender, 3);
    assert_eq!(receiver.recv_ref(&sender).unwrap_err(), RecvError::Lagged);
    assert!(matches!(receiver.poll_next(&sender), Polled::Failed(RecvError::Lagged)));
    assert!(matches!(receiver.poll_next(&sender), Polled::Finished));
    // the slot went with its message
    assert_eq!(
        sender.subscribe(Some(1), None).err(),
        Some(SubscribeError::SlotNotAvailable { first_available: 2 })
    );
}

#[test]
fn messages_go_by_size_too() {
    let one = entry(1);
    let size = ProtobufMessage::Entry { entry: &one }.encode_raw(TIME).len();
    let mut sender = channel(8, 2 * size);
    push_entry(&mut sender, 1);
    push_entry(&mut sender, 2);
    assert_eq!(
        sender.subscribe(Some(1), None).err(),
        Some(SubscribeError::SlotNotAvailable { first_available: 2 })
    );
    let mut receiver = sender.subscribe(Some(2), None).expect("subscribed");
    assert!(receiver.recv_ref(&sender).unwrap().is_some());
    // a single message is kept, however large
    let mut sender = channel(8, 1);
    let kept = push_entry(&mut sender, 3);
    let mut receiver = sender.subscribe(None, None).expect("subscribed");
    assert_eq!(**receiver.recv_ref(&sender).unwrap().unwrap(), kept);
}

#[test]
fn a_closed_channel_ends_once_read() {
    let mut sender = channel(4, 1_000_000);
    push_entry(&mut sender, 1);
    let mut receiver = sender.subscribe(None, None).expect("subscribed");
    assert!(matches!(receiver.poll_next(&sender), Polled::Item(_)));
    assert!(matches!(receiver.poll_next(&sender), Polled::Pending));
    sender.close();
    assert!(matches!(receiver.poll_next(&sender), Polled::Failed(RecvError::Closed)));
    assert!(matches!(receiver.poll_next(&sender), Polled::Finished));
}

#[test]
fn missed_statuses_come_first() {
    let mut sender = channel(16, 1_000_000);
    push_slot(&mut sender, 1, None, GeyserSlotStatus::Processed);
    push_slot(&mut sender, 2, Some(1), GeyserSlotStatus::Processed);
    push_slot(&mut sender, 3, Some(2), GeyserSlotStatus::Processed);
    push_slot(&mut sender, 3, Some(2), GeyserSlotStatus::Confirmed);
    let mut receiver = sender.subscribe(Some(3), None).expect("subscribed");
    let expected = [
        slot_bytes(3, Some(2), GeyserSlotStatus::Processed),
        slot_bytes(1, None, GeyserSlotStatus::Confirmed),
        slot_bytes(2, Some(1), GeyserSlotStatus::Confirmed),
        slot_bytes(3, Some(2), GeyserSlotStatus::Confirmed),
    ];
    for bytes in expected {
        assert_eq!(**receiver.recv_ref(&sender).unwrap().unwrap(), bytes);
    }
    assert!(receiver.recv_ref(&sender).unwrap().is_none());

    // nothing was missed this time but for what is rooted
    push_slot(&mut sender, 3, Some(2), GeyserSlotStatus::Confirmed);
    push_slot(&mut sender, 2, Some(1), GeyserSlotStatus::Rooted);
    let expected = [
        slot_bytes(3, Some(2), GeyserSlotStatus::Confirmed),
        slot_bytes(1, None, GeyserSlotStatus::Rooted),
        slot_bytes(2, Some(1), GeyserSlotStatus::Rooted),
    ];
    for bytes in expected {
        assert_eq!(**receiver.recv_ref(&sender).unwrap().unwrap(), bytes);
    }
    assert!(receiver.recv_ref(&sender).unwrap().is_none());
}

#[test]
fn defaults_of_the_channel() {
    let config = ConfigChannel::default();
    assert_eq!(config.encoder, ProtobufEncoder::Raw);
    assert_eq!(config.max_messages, 2_097_152);
    assert_eq!(config.max_bytes, 15 * 1024 * 1024 * 1024);
    assert_eq!(ConfigChannel::encoder_of("prost"), Ok(ProtobufEncoder::Prost));
    assert_eq!(ConfigChannel::encoder_of("raw"), Ok(ProtobufEncoder::Raw));
    assert_eq!(
        ConfigChannel::encoder_of("json"),
        Err("failed to decode encoder: json".to_owned())
    );
}

#[test]
fn as_many_messages_are_kept_as_fit() {
    let size = ProtobufMessage::Entry { entry: &entry(1) }.encode_raw(TIME).len();
    // by number: four of five
    let mut sender = channel(3, 1_000_000);
    // by data: two of five
    let mut small = channel(3, 3 * size);
    for slot in 1..=5 {
        push_entry(&mut sender, slot);
        push_entry(&mut small, slot);
    }
    let first = |sender: &Sender| match sender.subscribe(Some(99), None).unwrap_err() {
        SubscribeError::SlotNotAvailable { first_available } => first_available,
        other => panic!("unexpected {other:?}"),
    };
    assert_eq!((first(&sender), first(&small)), (2, 4));
}

#[test]
fn a_slot_up_to_an_evicted_one_cannot_be_replayed() {
    let mut sender = channel(2, 1_000_000);
    push_entry(&mut sender, 9);
    push_entry(&mut sender, 3);
    push_entry(&mut sender, 10);
    // the message of slot 9 went, and slot 3 with it, although its message is there
    for slot in [3, 9] {
        assert_eq!(
            sender.subscribe(Some(slot), None).err(),
            Some(SubscribeError::SlotNotAvailable { first_available: 10 })
        );
    }
    let last = push_entry(&mut sender, 10);
    let mut receiver = sender.subscribe(Some(10), None).expect("subscribed");
    assert!(receiver.recv_ref(&sender).unwrap().is_some());
    assert_eq!(**receiver.recv_ref(&sender).unwrap().unwrap(), last);
}

#[test]
fn by_default_only_what_all_plugins_have_is_received() {
    let mut sender = channel(8, 1_000_000);
    push_slot(&mut sender, 1, None, GeyserSlotStatus::Processed);
    sender.push(&ProtobufMessage::ContactInfoRemoved { pubkey: &[3; 32] }, ProtobufEncoder::Raw, TIME);
    let one = push_entry(&mut sender, 1);
    sender.push(&ProtobufMessage::ContactInfoRemoved { pubkey: &[4; 32] }, ProtobufEncoder::Raw, TIME);
    let two = push_entry(&mut sender, 2);
    let mut receiver = sender.subscribe(Some(1), None).expect("subscribed");
    let slot = slot_bytes(1, None, GeyserSlotStatus::Processed);
    for expected in [slot, one, two] {
        assert_eq!(**receiver.recv_ref(&sender).unwrap().unwrap(), expected);
    }
    assert!(receiver.recv_ref(&sender).unwrap().is_none());
}
