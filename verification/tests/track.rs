//! Races between sources.
use richat::geyser::{SubscribeUpdateBlockMeta, SubscribeUpdateSlot, SubscribeUpdateTransactionInfo};
use richat::stream::{SubscribeUpdateTransaction, UpdateOneof};
use richat::track::{format_delay, richat_filter, subscribe_request, ConfigTrack, TrackStorage};

fn block_meta(slot: u64) -> UpdateOneof {
    UpdateOneof::BlockMeta(SubscribeUpdateBlockMeta {
        slot,
        blockhash: String::new(),
        rewards: None,
        block_time: None,
        block_height: None,
        parent_slot: 0,
        parent_blockhash: String::new(),
        executed_transaction_count: 0,
        entries_count: 0,
    })
}

fn transaction(slot: u64, index: u64) -> UpdateOneof {
    UpdateOneof::Transaction(SubscribeUpdateTransaction {
        transaction: Some(SubscribeUpdateTransactionInfo {
            signature: vec![],
            is_vote: false,
            transaction: None,
            meta: None,
            index,
        }),
        slot,
    })
}

#[test]
fn updates_match_what_is_tracked() {
    let track = ConfigTrack::Transaction { index: 3 };
    assert_eq!(track.matches(&transaction(7, 3)), Some(7));
    assert_eq!(track.matches(&transaction(7, 4)), None);
    assert_eq!(track.matches(&block_meta(7)), None);
    assert_eq!(ConfigTrack::BlockMeta.matches(&block_meta(7)), Some(7));
    assert_eq!(
        ConfigTrack::BlockMeta.matches(&UpdateOneof::Transaction(SubscribeUpdateTransaction {
            transaction: None,
            slot: 7,
        })),
        None
    );
    assert_eq!(track.to_info(42), "Slot 42 | Transaction#3");
    assert_eq!(ConfigTrack::BlockMeta.to_info(0), "Slot 0 | BlockMeta");
}

#[test]
fn a_race_has_one_winner() {
    let mut storage = TrackStorage::new(3);
    assert!(storage.add(1, ConfigTrack::BlockMeta, 0, 2_500).is_none());
    assert!(storage.add(1, ConfigTrack::BlockMeta, 2, 1_500).is_none());
    assert!(storage.add(2, ConfigTrack::BlockMeta, 1, 100).is_none());
    let race = storage.add(1, ConfigTrack::BlockMeta, 1, 1_500).expect("race");
    assert_eq!((race.best, race.times), (1, vec![2_500, 1_500, 1_500]));
    assert_eq!(storage.stat_message(0), "win 0000000000 | avg delay +00.000001s");
    assert_eq!(storage.stat_message(1), "win 0000000001 | avg delay +00.000000s");
    let stat = storage.stat(2).expect("source");
    assert_eq!((stat.win, stat.delay, stat.delay_count), (0, 0, 1));
    assert!(storage.stat(3).is_none());
    assert_eq!(storage.total(), 3);

    // a source that tells again races again
    let race = storage.add(1, ConfigTrack::BlockMeta, 1, 4_000_001_500).expect("race");
    assert_eq!(race.best, 2);
    assert_eq!(storage.stat_message(1), "win 0000000001 | avg delay +04.000000s");
}

#[test]
fn finalized_slots_are_forgotten() {
    let tracks = vec![ConfigTrack::BlockMeta, ConfigTrack::Transaction { index: 0 }];
    let mut storage = TrackStorage::new(2);
    assert!(storage.on_update(&tracks, &block_meta(1), 0, 10).is_empty());
    assert!(storage.on_update(&tracks, &block_meta(2), 0, 20).is_empty());
    for status in [0, 1, 3, 6] {
        let slot = SubscribeUpdateSlot { slot: 9, parent: None, status, dead_error: None };
        assert!(storage.on_update(&tracks, &UpdateOneof::Slot(slot), 0, 25).is_empty());
    }
    let slot = SubscribeUpdateSlot { slot: 2, parent: None, status: 2, dead_error: None };
    assert!(storage.on_update(&tracks, &UpdateOneof::Slot(slot), 0, 25).is_empty());
    // the first slot was forgotten, the second was not
    assert!(storage.on_update(&tracks, &block_meta(1), 1, 30).is_empty());
    let races = storage.on_update(&tracks, &block_meta(2), 1, 35);
    assert_eq!(races.len(), 1);
    assert_eq!((races[0].slot, races[0].track, races[0].best), (2, ConfigTrack::BlockMeta, 0));
    assert!(storage.on_update(&tracks, &transaction(2, 0), 1, 40).is_empty());
    assert_eq!(storage.on_update(&tracks, &transaction(2, 0), 0, 50).len(), 1);
}

#[test]
fn delays_are_written_out() {
    assert_eq!(format_delay(0), "+00.000000s");
    assert_eq!(format_delay(1_234_567_899), "+01.234567s");
    assert_eq!(format_delay(123_000_000_000), "+123.000000s");
}

#[test]
fn sources_are_asked_for_what_is_tracked() {
    let request = subscribe_request(true, false);
    assert_eq!(request.accounts.len(), 1);
    assert!(request.transactions.is_empty());
    assert_eq!(request.slots[0].0, "");
    assert_eq!(request.slots[0].1.filter_by_commitment, Some(false));
    assert_eq!(request.slots[0].1.interslot_updates, Some(true));
    assert_eq!((request.entry, request.blocks_meta), (vec!["".to_owned()], vec!["".to_owned()]));
    assert_eq!(request.commitment, Some(0));
    let filter = richat_filter(true, false);
    assert!(!filter.disable_accounts && filter.disable_transactions && !filter.disable_entries);
}
