//! What is read of parts of updates, and what is made of updates with it.
use vstd::prelude::*;

use crate::block;
use crate::block::RewardView;
use crate::codec::Timestamp;
use crate::convert;
use crate::convert::{ConvertError, RawUpdate, Verdict};
use crate::encode;
use crate::geyser::{AccountView, BlockMetaView, SlotView, TransactionInfoView};
use crate::message::{MessageBlockView, MessageTransactionView};
use crate::plugin;
use crate::protobuf;
use crate::readings;
use crate::readings::{Readings, TransactionView, VersionedView};
use crate::richat::RichatView;
use crate::stream::{StreamView, UpdateView};
use crate::wire;

verus! {

// ---------------------------------------------------------------------------------------------
// Readings
// ---------------------------------------------------------------------------------------------

/// Of the keys, the last one that is the key is found, and none only where none is.
pub proof fn law_place<K>(keys: Seq<K>, key: K)
    ensures
        match readings::place(keys, key) {
            Some(i) => {
                &&& 0 <= i < keys.len()
                &&& keys[i] == key
                &&& forall|j: int| i < j < keys.len() ==> #[trigger] keys[j] != key
            },
            None => forall|j: int| 0 <= j < keys.len() ==> #[trigger] keys[j] != key,
        },
    decreases keys.len(),
{
    if keys.len() > 0 && keys.last() != key {
        let before = keys.drop_last();
        law_place(before, key);
        match readings::place(keys, key) {
            Some(i) => {
                assert forall|j: int| i < j < keys.len() implies #[trigger] keys[j] != key by {
                    if j < before.len() {
                        assert(before[j] == keys[j]);
                    }
                }
            },
            None => {
                assert forall|j: int| 0 <= j < keys.len() implies #[trigger] keys[j] != key by {
                    if j < before.len() {
                        assert(before[j] == keys[j]);
                    }
                }
            },
        }
    }
}

/// Bytes are read as what the last pair for them says, and as nothing where there is none.
pub proof fn law_read_as(pairs: Seq<(Vec<u8>, Vec<u8>)>, key: Seq<u8>)
    ensures
        match readings::read_as(pairs, key) {
            Some(bytes) => exists|i: int|
                {
                    &&& 0 <= i < pairs.len()
                    &&& (#[trigger] pairs[i]).0@ == key
                    &&& pairs[i].1@ == bytes
                    &&& forall|j: int| i < j < pairs.len() ==> (#[trigger] pairs[j]).0@ != key
                },
            None => forall|j: int| 0 <= j < pairs.len() ==> (#[trigger] pairs[j]).0@ != key,
        },
{
    let keys = readings::keys_of(pairs);
    law_place(keys, key);
    assert forall|j: int| 0 <= j < pairs.len() implies (#[trigger] pairs[j]).0@ == keys[j] by {}
    if let Some(i) = readings::place(keys, key) {
        assert(pairs[i].0@ == key);
        assert forall|j: int| i < j < pairs.len() implies (#[trigger] pairs[j]).0@ != key by {
            assert(keys[j] != key);
        }
    } else {
        assert forall|j: int| 0 <= j < pairs.len() implies (#[trigger] pairs[j]).0@ != key by {
            assert(keys[j] != key);
        }
    }
}

/// A transaction is read as what the last pair for its bytes says, and as nothing where there is none.
pub proof fn law_read_transaction(r: Readings, info: TransactionInfoView)
    ensures
        ({
            let pairs = r.transactions@;
            let key = encode::transaction_info_bytes(info);
            ||| exists|i: int|
                {
                    &&& 0 <= i < pairs.len()
                    &&& (#[trigger] pairs[i]).0@ == key
                    &&& r.transaction(info) == match pairs[i].1 {
                        Ok(t) => Ok(t@),
                        Err(e) => Err(e),
                    }
                    &&& forall|j: int| i < j < pairs.len() ==> (#[trigger] pairs[j]).0@ != key
                }
            ||| {
                &&& r.transaction(info) == Err::<TransactionView, &'static str>("NotConverted")
                &&& forall|j: int| 0 <= j < pairs.len() ==> (#[trigger] pairs[j]).0@ != key
            }
        }),
{
    let pairs = r.transactions@;
    let key = encode::transaction_info_bytes(info);
    let keys = readings::keys_of(pairs);
    law_place(keys, key);
    assert forall|j: int| 0 <= j < pairs.len() implies (#[trigger] pairs[j]).0@ == keys[j] by {}
    if let Some(i) = readings::place(keys, key) {
        assert(pairs[i].0@ == key);
        assert forall|j: int| i < j < pairs.len() implies (#[trigger] pairs[j]).0@ != key by {
            assert(keys[j] != key);
        }
    } else {
        assert forall|j: int| 0 <= j < pairs.len() implies (#[trigger] pairs[j]).0@ != key by {
            assert(keys[j] != key);
        }
    }
}

/// The text of a socket is read as the address that the last pair for it says, and as none where there is
/// none.
pub proof fn law_read_socket(r: Readings, text: Seq<char>)
    ensures
        ({
            let pairs = r.sockets@;
            ||| exists|i: int|
                {
                    &&& 0 <= i < pairs.len()
                    &&& (#[trigger] pairs[i]).0@ == text
                    &&& r.socket(text) == Some(pairs[i].1@)
                    &&& forall|j: int| i < j < pairs.len() ==> (#[trigger] pairs[j]).0@ != text
                }
            ||| {
                &&& r.socket(text) is None
                &&& forall|j: int| 0 <= j < pairs.len() ==> (#[trigger] pairs[j]).0@ != text
            }
        }),
{
    let pairs = r.sockets@;
    let keys = readings::text_keys(pairs);
    law_place(keys, text);
    assert forall|j: int| 0 <= j < pairs.len() implies (#[trigger] pairs[j]).0@ == keys[j] by {}
    if let Some(i) = readings::place(keys, text) {
        assert(pairs[i].0@ == text);
        assert forall|j: int| i < j < pairs.len() implies (#[trigger] pairs[j]).0@ != text by {
            assert(keys[j] != text);
        }
    } else {
        assert forall|j: int| 0 <= j < pairs.len() implies (#[trigger] pairs[j]).0@ != text by {
            assert(keys[j] != text);
        }
    }
}

/// A block footer is read as what the last pair for its bytes says, and as nothing where there is none.
pub proof fn law_read_footer(r: Readings, bytes: Seq<u8>)
    ensures
        ({
            let pairs = r.footers@;
            ||| exists|i: int|
                {
                    &&& 0 <= i < pairs.len()
                    &&& (#[trigger] pairs[i]).0@ == bytes
                    &&& r.footer(bytes) == Some(pairs[i].1)
                    &&& forall|j: int| i < j < pairs.len() ==> (#[trigger] pairs[j]).0@ != bytes
                }
            ||| {
                &&& r.footer(bytes) is None
                &&& forall|j: int| 0 <= j < pairs.len() ==> (#[trigger] pairs[j]).0@ != bytes
            }
        }),
{
    let pairs = r.footers@;
    let keys = readings::keys_of(pairs);
    law_place(keys, bytes);
    assert forall|j: int| 0 <= j < pairs.len() implies (#[trigger] pairs[j]).0@ == keys[j] by {}
    if let Some(i) = readings::place(keys, bytes) {
        assert(pairs[i].0@ == bytes);
        assert forall|j: int| i < j < pairs.len() implies (#[trigger] pairs[j]).0@ != bytes by {
            assert(keys[j] != bytes);
        }
    } else {
        assert forall|j: int| 0 <= j < pairs.len() implies (#[trigger] pairs[j]).0@ != bytes by {
            assert(keys[j] != bytes);
        }
    }
}

/// A reward is read as what the last pair for it says, and as nothing where there is none.
pub proof fn law_read_reward(r: Readings, m: RewardView)
    ensures
        ({
            let pairs = r.rewards@;
            ||| exists|i: int|
                {
                    &&& 0 <= i < pairs.len()
                    &&& (#[trigger] pairs[i]).0@ == m
                    &&& r.reward(m) == match pairs[i].1 {
                        Ok(reward) => Ok(reward@),
                        Err(e) => Err(e),
                    }
                    &&& forall|j: int| i < j < pairs.len() ==> (#[trigger] pairs[j]).0@ != m
                }
            ||| {
                &&& r.reward(m) == Err::<RewardView, &'static str>("NotConverted")
                &&& forall|j: int| 0 <= j < pairs.len() ==> (#[trigger] pairs[j]).0@ != m
            }
        }),
{
    let pairs = r.rewards@;
    let keys = readings::reward_keys(pairs);
    law_place(keys, m);
    assert forall|j: int| 0 <= j < pairs.len() implies (#[trigger] pairs[j]).0@ == keys[j] by {}
    if let Some(i) = readings::place(keys, m) {
        assert(pairs[i].0@ == m);
        assert forall|j: int| i < j < pairs.len() implies (#[trigger] pairs[j]).0@ != m by {
            assert(keys[j] != m);
        }
    } else {
        assert forall|j: int| 0 <= j < pairs.len() implies (#[trigger] pairs[j]).0@ != m by {
            assert(keys[j] != m);
        }
    }
}

/// What is read of the parts comes from the lists of these parts.
pub proof fn law_lists(r: Readings, bytes: Seq<u8>)
    ensures
        r.body(bytes) == readings::read_as(r.bodies@, bytes),
        r.error(bytes) == readings::read_as(r.errors@, bytes),
        r.reward_list(bytes) == readings::read_as(r.reward_lists@, bytes),
{
}

// ---------------------------------------------------------------------------------------------
// Updates that are encoded again
// ---------------------------------------------------------------------------------------------

/// An update of the stream is encoded again as a validator tells of it, with its time: an account as
/// none of the startup, a slot with an error where it is dead alone, a transaction and the rewards as
/// they are read. What has no time, and what a validator does not tell of, is not encoded.
pub proof fn law_retold_geyser(
    update: Option<UpdateView>,
    created_at: Option<Timestamp>,
    r: Readings,
)
    ensures
        ({
            let raw = convert::raw_geyser(update, created_at, r);
            match (update, created_at) {
                (_, None) => raw == Ok::<Option<Seq<u8>>, ConvertError>(None),
                (None, _) => raw == Ok::<Option<Seq<u8>>, ConvertError>(None),
                (Some(UpdateView::Account(m)), Some(ts)) => match m.account {
                    None => raw == Ok::<Option<Seq<u8>>, ConvertError>(None),
                    Some(info) => if info.txn_signature is Some && info.txn_signature->Some_0.len()
                        != 64 {
                        raw == Err::<Option<Seq<u8>>, ConvertError>(ConvertError::InvalidSignature)
                    } else {
                        raw == again(
                            2,
                            encode::account_bytes(
                                AccountView {
                                    account: Some(info),
                                    slot: m.slot,
                                    is_startup: false,
                                },
                            ),
                            ts,
                        )
                    },
                },
                (Some(UpdateView::Slot(m)), Some(ts)) => if m.status < 0 || m.status > 6 {
                    raw == Err::<Option<Seq<u8>>, ConvertError>(
                        ConvertError::InvalidStatus(m.status),
                    )
                } else {
                    raw == again(
                        3,
                        encode::slot_bytes(
                            SlotView {
                                slot: m.slot,
                                parent: m.parent,
                                status: m.status,
                                dead_error: if m.status != 6 {
                                    None
                                } else if m.dead_error is Some {
                                    m.dead_error
                                } else {
                                    Some(Seq::empty())
                                },
                            },
                        ),
                        ts,
                    )
                },
                (Some(UpdateView::Transaction { transaction, slot }), Some(
                    ts,
                )) => match transaction {
                    None => raw == Ok::<Option<Seq<u8>>, ConvertError>(None),
                    Some(info) => match r.transaction(info) {
                        Err(_) => raw == Err::<Option<Seq<u8>>, ConvertError>(
                            ConvertError::InvalidTransaction,
                        ),
                        Ok(TransactionView::MissingMetadata(_)) => raw == Err::<
                            Option<Seq<u8>>,
                            ConvertError,
                        >(ConvertError::NoTransactionMeta),
                        Ok(TransactionView::Complete(t)) => if info.signature.len() != 64 {
                            raw == Err::<Option<Seq<u8>>, ConvertError>(
                                ConvertError::InvalidSignature,
                            )
                        } else {
                            exists|told: TransactionInfoView|
                                {
                                    &&& raw == again(
                                        4,
                                        encode::transaction_bytes(
                                            #[trigger] encode::transaction_info_bytes(told),
                                            slot,
                                        ),
                                        ts,
                                    )
                                    &&& told.signature == info.signature
                                    &&& told.is_vote == info.is_vote
                                    &&& told.index == info.index
                                    &&& told.transaction is Some
                                    &&& told.transaction->Some_0.encoded == t.transaction
                                    &&& told.meta is Some
                                    &&& told.meta->Some_0.encoded == t.meta
                                }
                        },
                    },
                },
                (Some(UpdateView::Entry(m)), Some(ts)) => raw == again(
                    8,
                    encode::entry_bytes(m),
                    ts,
                ),
                (Some(UpdateView::BlockMeta(m)), Some(ts)) => match m.rewards {
                    None => raw == Err::<Option<Seq<u8>>, ConvertError>(ConvertError::NoRewards),
                    Some(rewards) => match r.reward_list(rewards) {
                        None => raw == Err::<Option<Seq<u8>>, ConvertError>(
                            ConvertError::InvalidRewards,
                        ),
                        Some(told) => raw == again(
                            7,
                            encode::block_meta_bytes(BlockMetaView { rewards: Some(told), ..m }),
                            ts,
                        ),
                    },
                },
                _ => raw == Ok::<Option<Seq<u8>>, ConvertError>(None),
            }
        }),
{
    if let (Some(UpdateView::Transaction { transaction: Some(info), slot }), Some(ts)) = (
        update,
        created_at,
    ) {
        if let Ok(TransactionView::Complete(t)) = r.transaction(info) {
            let told = convert::retold(info, t);
            assert(told.signature == info.signature);
            let bytes = encode::transaction_info_bytes(told);
            assert(info.signature.len() == 64 ==> convert::raw_geyser(
                update,
                created_at,
                r,
            ) == again(
                4,
                encode::transaction_bytes(bytes, slot),
                ts,
            ));
        }
    }
}

/// An update with its time.
pub open spec fn again(tag: u32, payload: Seq<u8>, created_at: Timestamp) -> RawUpdate {
    Ok(Some(protobuf::update_bytes(tag, payload, created_at)))
}

/// An update that is none of the stream is encoded again as a validator tells of it, with its time. What
/// has no time is not encoded, nor is what holds a key, a hash or a signature of the wrong length, a
/// number that is too large, or a part that cannot be read.
pub proof fn law_retold_richat(
    update: Option<RichatView>,
    created_at: Option<Timestamp>,
    r: Readings,
)
    ensures
        ({
            let raw = convert::raw_richat(update, created_at, r);
            match (update, created_at) {
                (_, None) => raw == Ok::<Option<Seq<u8>>, ConvertError>(None),
                (None, _) => raw == Ok::<Option<Seq<u8>>, ConvertError>(None),
                (Some(RichatView::DeshredTransaction(m)), Some(_)) => match m.transaction {
                    None => raw == Ok::<Option<Seq<u8>>, ConvertError>(None),
                    Some(info) => {
                        &&& raw is Ok <==> {
                            &&& info.transaction matches Some(t) && r.body(t) is Some
                            &&& info.signature.len() == 64
                            &&& forall|i: int|
                                0 <= i < info.loaded_writable_addresses.len() ==> (
                                #[trigger] info.loaded_writable_addresses[i]).len() == 32
                            &&& forall|i: int|
                                0 <= i < info.loaded_readonly_addresses.len() ==> (
                                #[trigger] info.loaded_readonly_addresses[i]).len() == 32
                        }
                        &&& raw matches Err(e) ==> match e {
                            ConvertError::NoTransaction => info.transaction is None,
                            ConvertError::InvalidTransaction => info.transaction is Some && r.body(
                                info.transaction->Some_0,
                            ) is None,
                            ConvertError::InvalidSignature => info.signature.len() != 64,
                            ConvertError::InvalidAddress => {
                                ||| exists|i: int|
                                    0 <= i < info.loaded_writable_addresses.len() && (
                                    #[trigger] info.loaded_writable_addresses[i]).len() != 32
                                ||| exists|i: int|
                                    0 <= i < info.loaded_readonly_addresses.len() && (
                                    #[trigger] info.loaded_readonly_addresses[i]).len() != 32
                            },
                            _ => false,
                        }
                    },
                },
                (Some(RichatView::ContactInfo(m)), Some(_)) => {
                    let fits = m.shred_version <= 65535 && m.version_major <= 65535
                        && m.version_minor <= 65535 && m.version_patch <= 65535
                        && m.version_client_id <= 65535;
                    &&& !fits ==> raw == Err::<Option<Seq<u8>>, ConvertError>(
                        ConvertError::InvalidNumber,
                    )
                    &&& fits ==> raw is Ok || raw == Err::<Option<Seq<u8>>, ConvertError>(
                        ConvertError::InvalidSocket,
                    )
                    &&& raw is Ok ==> {
                        &&& m.gossip matches Some(x) ==> r.socket(x) is Some
                        &&& m.tpu_quic matches Some(x) ==> r.socket(x) is Some
                        &&& m.tpu_forwards_quic matches Some(x) ==> r.socket(x) is Some
                        &&& m.tpu_vote_udp matches Some(x) ==> r.socket(x) is Some
                        &&& m.tpu_vote_quic matches Some(x) ==> r.socket(x) is Some
                        &&& m.tvu_udp matches Some(x) ==> r.socket(x) is Some
                        &&& m.tvu_quic matches Some(x) ==> r.socket(x) is Some
                        &&& m.serve_repair_udp matches Some(x) ==> r.socket(x) is Some
                        &&& m.serve_repair_quic matches Some(x) ==> r.socket(x) is Some
                        &&& m.rpc matches Some(x) ==> r.socket(x) is Some
                        &&& m.rpc_pubsub matches Some(x) ==> r.socket(x) is Some
                        &&& m.alpenglow matches Some(x) ==> r.socket(x) is Some
                    }
                },
                (Some(RichatView::ContactInfoRemoved { pubkey }), Some(ts)) => raw == again(
                    102,
                    wire::bytes_field_opt(1, pubkey),
                    ts,
                ),
                (Some(RichatView::BlockFooter(m)), Some(ts)) => match r.footer(m.footer) {
                    Some(footer) => raw == again(
                        103,
                        plugin::footer_bytes(m.slot, m.bank_id, footer),
                        ts,
                    ),
                    None => raw == Err::<Option<Seq<u8>>, ConvertError>(
                        ConvertError::InvalidBlockFooter,
                    ),
                },
                (
                    Some(
                        RichatView::EntryUpdateParent {
                            slot,
                            cleared_bank_id,
                            parent_slot,
                            parent_block_id,
                        },
                    ),
                    Some(ts),
                ) => if parent_block_id.len() == 32 {
                    raw == again(
                        104,
                        plugin::update_parent_bytes(
                            slot,
                            cleared_bank_id,
                            parent_slot,
                            parent_block_id,
                        ),
                        ts,
                    )
                } else {
                    raw == Err::<Option<Seq<u8>>, ConvertError>(ConvertError::InvalidHash)
                },
                (
                    Some(
                        RichatView::DeshredUpdateParent {
                            slot,
                            update_parent_fec_set_index,
                            parent_slot,
                            parent_block_id,
                        },
                    ),
                    Some(ts),
                ) => if parent_block_id.len() == 32 {
                    raw == again(
                        105,
                        plugin::update_parent_bytes(
                            slot,
                            update_parent_fec_set_index as u64,
                            parent_slot,
                            parent_block_id,
                        ),
                        ts,
                    )
                } else {
                    raw == Err::<Option<Seq<u8>>, ConvertError>(ConvertError::InvalidHash)
                },
            }
        }),
{
}

/// An update is encoded again as one of its own kind: one of the stream as such, and any other as such.
pub proof fn law_retold(m: StreamView, r: Readings)
    ensures
        match m {
            StreamView::Geyser { update, created_at, .. } => convert::raw_update(m, r)
                == convert::raw_geyser(update, created_at, r),
            StreamView::Richat { update, created_at } => convert::raw_update(m, r)
                == convert::raw_richat(update, created_at, r),
        },
{
}

/// The verdict on an update tells whether the bytes are those that it is encoded to again; where it is not
/// encoded again, that nothing is known; and where it cannot be, why.
pub proof fn law_verdict(data: Seq<u8>, bytes: Seq<u8>, e: ConvertError)
    ensures
        convert::verdict(data, Ok(Some(data))) == Verdict::Same,
        bytes != data ==> convert::verdict(data, Ok(Some(bytes))) == Verdict::Differs,
        convert::verdict(data, Ok(None)) == Verdict::Unknown,
        convert::verdict(data, Err(e)) == Verdict::Failed(e),
{
}

// ---------------------------------------------------------------------------------------------
// Confirmed blocks
// ---------------------------------------------------------------------------------------------

/// Where all transactions are made something of, it is that in order; else the first failure is told.
proof fn lemma_versioned_all(transactions: Seq<MessageTransactionView>, r: Readings)
    ensures
        match block::versioned_all(transactions, r) {
            Ok(ts) => {
                &&& ts.len() == transactions.len()
                &&& forall|i: int|
                    0 <= i < ts.len() ==> (#[trigger] transactions[i]).versioned(r) == Ok::<
                        VersionedView,
                        &'static str,
                    >(ts[i])
            },
            Err(e) => exists|i: int|
                {
                    &&& 0 <= i < transactions.len()
                    &&& (#[trigger] transactions[i]).versioned(r) == Err::<
                        VersionedView,
                        &'static str,
                    >(e)
                    &&& forall|j: int|
                        0 <= j < i ==> (#[trigger] transactions[j]).versioned(r) is Ok
                },
        },
    decreases transactions.len(),
{
    if transactions.len() > 0 {
        let before = transactions.drop_last();
        lemma_versioned_all(before, r);
        match block::versioned_all(transactions, r) {
            Ok(ts) => {
                assert forall|i: int| 0 <= i < ts.len() implies (#[trigger] transactions[i]).versioned(
                    r,
                ) == Ok::<VersionedView, &'static str>(ts[i]) by {
                    if i < before.len() {
                        assert(before[i] == transactions[i]);
                    }
                }
            },
            Err(e) => {
                if block::versioned_all(before, r) is Err {
                    let i = choose|i: int|
                        {
                            &&& 0 <= i < before.len()
                            &&& (#[trigger] before[i]).versioned(r) == Err::<
                                VersionedView,
                                &'static str,
                            >(e)
                            &&& forall|j: int|
                                0 <= j < i ==> (#[trigger] before[j]).versioned(r) is Ok
                        };
                    assert(transactions[i].versioned(r) == Err::<VersionedView, &'static str>(e));
                    assert forall|j: int| 0 <= j < i implies (#[trigger] transactions[j]).versioned(
                        r,
                    ) is Ok by {
                        assert(before[j] == transactions[j]);
                    }
                } else {
                    let i = transactions.len() - 1;
                    assert(transactions[i].versioned(r) == Err::<VersionedView, &'static str>(e));
                    assert forall|j: int| 0 <= j < i implies (#[trigger] transactions[j]).versioned(
                        r,
                    ) is Ok by {
                        assert(before[j] == transactions[j]);
                    }
                }
            },
        }
    }
}

/// Where all rewards are made something of, it is that in order.
proof fn lemma_converted_all(rewards: Seq<RewardView>, r: Readings)
    ensures
        block::converted_all(rewards, r) matches Ok(rs) ==> {
            &&& rs.len() == rewards.len()
            &&& forall|i: int|
                0 <= i < rs.len() ==> r.reward(#[trigger] rewards[i]) == Ok::<
                    RewardView,
                    &'static str,
                >(rs[i])
        },
    decreases rewards.len(),
{
    if rewards.len() > 0 {
        let before = rewards.drop_last();
        lemma_converted_all(before, r);
        if let Ok(rs) = block::converted_all(rewards, r) {
            assert forall|i: int| 0 <= i < rs.len() implies r.reward(#[trigger] rewards[i]) == Ok::<
                RewardView,
                &'static str,
            >(rs[i]) by {
                if i < before.len() {
                    assert(before[i] == rewards[i]);
                }
            }
        }
    }
}

/// A confirmed block has the hashes, the parent, the time and the height of the block's metadata, the
/// transactions in order as they are read, each with its metadata, and the rewards in order as they are
/// read.
pub proof fn law_confirmed(m: MessageBlockView, r: Readings)
    ensures
        match m.confirmed(r) {
            Ok(b) => {
                let meta = m.block_meta.block_meta();
                &&& b.previous_blockhash == meta.parent_blockhash
                &&& b.blockhash == meta.blockhash
                &&& b.parent_slot == meta.parent_slot
                &&& b.block_time == meta.block_time
                &&& b.block_height == meta.block_height
                &&& b.transactions.len() == m.transactions.len()
                &&& forall|i: int|
                    0 <= i < m.transactions.len() ==> {
                        &&& (#[trigger] m.transactions[i]).transaction() matches Ok(
                            info,
                        ) && r.transaction(
                            info,
                        ) == Ok::<TransactionView, &'static str>(
                            TransactionView::Complete(b.transactions[i]),
                        )
                    }
                &&& meta.rewards is None ==> b.rewards.len() == 0 && b.num_partitions is None
                &&& meta.rewards matches Some(bytes) ==> {
                    &&& block::prost_rewards(bytes) matches Some((rewards, partitions)) && {
                        &&& b.num_partitions == partitions
                        &&& b.rewards.len() == rewards.len()
                        &&& forall|i: int|
                            0 <= i < rewards.len() ==> r.reward(#[trigger] rewards[i]) == Ok::<
                                RewardView,
                                &'static str,
                            >(b.rewards[i])
                    }
                }
            },
            Err(e) => {
                ||| exists|i: int|
                    {
                        &&& 0 <= i < m.transactions.len()
                        &&& (#[trigger] m.transactions[i]).versioned(r) == Err::<
                            VersionedView,
                            &'static str,
                        >(e)
                        &&& forall|j: int|
                            0 <= j < i ==> (#[trigger] m.transactions[j]).versioned(r) is Ok
                    }
                ||| {
                    &&& forall|j: int|
                        0 <= j < m.transactions.len() ==> (#[trigger] m.transactions[j]).versioned(
                            r,
                        ) is Ok
                    &&& m.block_meta.block_meta().rewards is Some
                }
            },
        },
{
    lemma_versioned_all(m.transactions, r);
    let meta = m.block_meta.block_meta();
    if let Some(bytes) = meta.rewards {
        if let Some((rewards, _)) = block::prost_rewards(bytes) {
            lemma_converted_all(rewards, r);
        }
    }
    if let Ok(ts) = block::versioned_all(m.transactions, r) {
        assert forall|j: int| 0 <= j < m.transactions.len() implies (
        #[trigger] m.transactions[j]).versioned(r) == Ok::<VersionedView, &'static str>(ts[j]) by {}
    }
}

/// A transaction is complete where it is there with its metadata.
pub proof fn law_complete(m: MessageTransactionView)
    ensures
        match m.transaction() {
            Err(e) => m.complete() == Err::<TransactionInfoView, &'static str>(e),
            Ok(info) => if info.meta is Some {
                m.complete() == Ok::<TransactionInfoView, &'static str>(info)
            } else {
                m.complete() == Err::<TransactionInfoView, &'static str>("FieldNotDefined")
            },
        },
        m matches MessageTransactionView::Prost { transaction, .. } ==> m.transaction() == Ok::<
            TransactionInfoView,
            &'static str,
        >(transaction),
{
}

} // verus!
