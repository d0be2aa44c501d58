//! What a subscriber reads of what a validator told of, field by field.
use vstd::prelude::*;

use crate::codec;
use crate::codec::Timestamp;
use crate::encode;
use crate::filter;
use crate::geyser;
use crate::geyser::{AccountView, SlotView};
use crate::plugin;
use crate::plugin::{
    BankId, BlockFooterView, LoadedAddresses, ReplicaContactInfo, ReplicaDeshredTransactionInfo,
};
use crate::protobuf;
use crate::protobuf::{GeyserSlotStatus, ProtobufMessage};
use crate::pubkey::Slot;
use crate::richat::RichatView;
use crate::sent;
use crate::sent::Held;
use crate::told;
use crate::wire;

verus! {

/// The bytes of the text, if there is any.
pub open spec fn utf8_opt(text: Option<Seq<char>>) -> Option<Seq<u8>> {
    match text {
        Some(text) => Some(vstd::utf8::encode_utf8(text)),
        None => None,
    }
}

/// What the fields with the tag hold.
spec fn loaded_held(loaded: Option<LoadedAddresses>, tag: u32) -> Held {
    match loaded {
        Some(loaded) => sent::all_runs(4, geyser::bytes_each(loaded.writable@), tag).and(
            sent::all_runs(5, geyser::bytes_each(loaded.readonly@), tag),
        ),
        None => Held::nothing(),
    }
}

proof fn lemma_loaded(loaded: Option<LoadedAddresses>, tag: u32)
    requires
        plugin::loaded_bytes(loaded).len() <= u64::MAX,
    ensures
        sent::holds(plugin::loaded_bytes(loaded), tag, loaded_held(loaded, tag)),
{
    sent::lemma_none(tag);
    if let Some(loaded) = loaded {
        let w = geyser::bytes_each(loaded.writable@);
        let o = geyser::bytes_each(loaded.readonly@);
        sent::lemma_all_runs(4, w, tag);
        sent::lemma_all_runs(5, o, tag);
        sent::lemma_both(
            encode::repeated_field(4, w),
            sent::all_runs(4, w, tag),
            encode::repeated_field(5, o),
            sent::all_runs(5, o, tag),
            tag,
        );
    }
}

/// What the fields with the tag hold.
spec fn numbers_held(info: ReplicaContactInfo, tag: u32) -> Held {
    sent::nonempty(1, info.pubkey@, tag)
        .and(sent::nonzero(2, info.wallclock, tag))
        .and(sent::nonzero(3, info.outset, tag))
        .and(sent::nonzero(4, info.shred_version as u64, tag))
        .and(sent::nonzero(5, info.version_major as u64, tag))
        .and(sent::nonzero(6, info.version_minor as u64, tag))
        .and(sent::nonzero(7, info.version_patch as u64, tag))
        .and(sent::nonzero(8, info.version_commit as u64, tag))
        .and(sent::nonzero(9, info.version_feature_set as u64, tag))
        .and(sent::nonzero(10, info.version_client_id as u64, tag))
}

proof fn lemma_numbers(info: ReplicaContactInfo, tag: u32)
    requires
        plugin::contact_numbers(info).len() <= u64::MAX,
    ensures
        sent::holds(plugin::contact_numbers(info), tag, numbers_held(info, tag)),
{
    sent::lemma_nonempty(1, info.pubkey@, tag);
    sent::lemma_nonzero(2, info.wallclock, tag);
    sent::lemma_nonzero(3, info.outset, tag);
    sent::lemma_nonzero(4, info.shred_version as u64, tag);
    sent::lemma_nonzero(5, info.version_major as u64, tag);
    sent::lemma_nonzero(6, info.version_minor as u64, tag);
    sent::lemma_nonzero(7, info.version_patch as u64, tag);
    sent::lemma_nonzero(8, info.version_commit as u64, tag);
    sent::lemma_nonzero(9, info.version_feature_set as u64, tag);
    sent::lemma_nonzero(10, info.version_client_id as u64, tag);
    let s1 = wire::bytes_field_opt(1, info.pubkey@);
    let h1 = sent::nonempty(1, info.pubkey@, tag);
    sent::lemma_both(
        s1,
        h1,
        wire::varint_field_opt(2, info.wallclock),
        sent::nonzero(2, info.wallclock, tag),
        tag,
    );
    let s2 = s1 + wire::varint_field_opt(2, info.wallclock);
    let h2 = h1.and(sent::nonzero(2, info.wallclock, tag));
    sent::lemma_both(
        s2,
        h2,
        wire::varint_field_opt(3, info.outset),
        sent::nonzero(3, info.outset, tag),
        tag,
    );
    let s3 = s2 + wire::varint_field_opt(3, info.outset);
    let h3 = h2.and(sent::nonzero(3, info.outset, tag));
    sent::lemma_both(
        s3,
        h3,
        wire::varint_field_opt(4, info.shred_version as u64),
        sent::nonzero(4, info.shred_version as u64, tag),
        tag,
    );
    let s4 = s3 + wire::varint_field_opt(4, info.shred_version as u64);
    let h4 = h3.and(sent::nonzero(4, info.shred_version as u64, tag));
    sent::lemma_both(
        s4,
        h4,
        wire::varint_field_opt(5, info.version_major as u64),
        sent::nonzero(5, info.version_major as u64, tag),
        tag,
    );
    let s5 = s4 + wire::varint_field_opt(5, info.version_major as u64);
    let h5 = h4.and(sent::nonzero(5, info.version_major as u64, tag));
    sent::lemma_both(
        s5,
        h5,
        wire::varint_field_opt(6, info.version_minor as u64),
        sent::nonzero(6, info.version_minor as u64, tag),
        tag,
    );
    let s6 = s5 + wire::varint_field_opt(6, info.version_minor as u64);
    let h6 = h5.and(sent::nonzero(6, info.version_minor as u64, tag));
    sent::lemma_both(
        s6,
        h6,
        wire::varint_field_opt(7, info.version_patch as u64),
        sent::nonzero(7, info.version_patch as u64, tag),
        tag,
    );
    let s7 = s6 + wire::varint_field_opt(7, info.version_patch as u64);
    let h7 = h6.and(sent::nonzero(7, info.version_patch as u64, tag));
    sent::lemma_both(
        s7,
        h7,
        wire::varint_field_opt(8, info.version_commit as u64),
        sent::nonzero(8, info.version_commit as u64, tag),
        tag,
    );
    let s8 = s7 + wire::varint_field_opt(8, info.version_commit as u64);
    let h8 = h7.and(sent::nonzero(8, info.version_commit as u64, tag));
    sent::lemma_both(
        s8,
        h8,
        wire::varint_field_opt(9, info.version_feature_set as u64),
        sent::nonzero(9, info.version_feature_set as u64, tag),
        tag,
    );
    let s9 = s8 + wire::varint_field_opt(9, info.version_feature_set as u64);
    let h9 = h8.and(sent::nonzero(9, info.version_feature_set as u64, tag));
    sent::lemma_both(
        s9,
        h9,
        wire::varint_field_opt(10, info.version_client_id as u64),
        sent::nonzero(10, info.version_client_id as u64, tag),
        tag,
    );
    let s10 = s9 + wire::varint_field_opt(10, info.version_client_id as u64);
    let h10 = h9.and(sent::nonzero(10, info.version_client_id as u64, tag));
    assert(s10 == plugin::contact_numbers(info));
}

/// What the fields with the tag hold.
spec fn sockets_held(info: ReplicaContactInfo, tag: u32) -> Held {
    sent::any_run(11, utf8_opt(geyser::text_opt(info.gossip)), tag)
        .and(sent::any_run(12, utf8_opt(geyser::text_opt(info.tpu_quic)), tag))
        .and(sent::any_run(13, utf8_opt(geyser::text_opt(info.tpu_forwards_quic)), tag))
        .and(sent::any_run(14, utf8_opt(geyser::text_opt(info.tpu_vote_udp)), tag))
        .and(sent::any_run(15, utf8_opt(geyser::text_opt(info.tpu_vote_quic)), tag))
        .and(sent::any_run(16, utf8_opt(geyser::text_opt(info.tvu_udp)), tag))
        .and(sent::any_run(17, utf8_opt(geyser::text_opt(info.tvu_quic)), tag))
        .and(sent::any_run(18, utf8_opt(geyser::text_opt(info.serve_repair_udp)), tag))
        .and(sent::any_run(19, utf8_opt(geyser::text_opt(info.serve_repair_quic)), tag))
        .and(sent::any_run(20, utf8_opt(geyser::text_opt(info.rpc)), tag))
        .and(sent::any_run(21, utf8_opt(geyser::text_opt(info.rpc_pubsub)), tag))
        .and(sent::any_run(22, utf8_opt(geyser::text_opt(info.alpenglow)), tag))
}

proof fn lemma_sockets(info: ReplicaContactInfo, tag: u32)
    requires
        plugin::contact_sockets(info).len() <= u64::MAX,
    ensures
        sent::holds(plugin::contact_sockets(info), tag, sockets_held(info, tag)),
{
    sent::lemma_any_run(11, utf8_opt(geyser::text_opt(info.gossip)), tag);
    sent::lemma_any_run(12, utf8_opt(geyser::text_opt(info.tpu_quic)), tag);
    sent::lemma_any_run(13, utf8_opt(geyser::text_opt(info.tpu_forwards_quic)), tag);
    sent::lemma_any_run(14, utf8_opt(geyser::text_opt(info.tpu_vote_udp)), tag);
    sent::lemma_any_run(15, utf8_opt(geyser::text_opt(info.tpu_vote_quic)), tag);
    sent::lemma_any_run(16, utf8_opt(geyser::text_opt(info.tvu_udp)), tag);
    sent::lemma_any_run(17, utf8_opt(geyser::text_opt(info.tvu_quic)), tag);
    sent::lemma_any_run(18, utf8_opt(geyser::text_opt(info.serve_repair_udp)), tag);
    sent::lemma_any_run(19, utf8_opt(geyser::text_opt(info.serve_repair_quic)), tag);
    sent::lemma_any_run(20, utf8_opt(geyser::text_opt(info.rpc)), tag);
    sent::lemma_any_run(21, utf8_opt(geyser::text_opt(info.rpc_pubsub)), tag);
    sent::lemma_any_run(22, utf8_opt(geyser::text_opt(info.alpenglow)), tag);
    let s1 = plugin::socket_field(11, geyser::text_opt(info.gossip));
    let h1 = sent::any_run(11, utf8_opt(geyser::text_opt(info.gossip)), tag);
    sent::lemma_both(
        s1,
        h1,
        plugin::socket_field(12, geyser::text_opt(info.tpu_quic)),
        sent::any_run(12, utf8_opt(geyser::text_opt(info.tpu_quic)), tag),
        tag,
    );
    let s2 = s1 + plugin::socket_field(12, geyser::text_opt(info.tpu_quic));
    let h2 = h1.and(sent::any_run(12, utf8_opt(geyser::text_opt(info.tpu_quic)), tag));
    sent::lemma_both(
        s2,
        h2,
        plugin::socket_field(13, geyser::text_opt(info.tpu_forwards_quic)),
        sent::any_run(13, utf8_opt(geyser::text_opt(info.tpu_forwards_quic)), tag),
        tag,
    );
    let s3 = s2 + plugin::socket_field(13, geyser::text_opt(info.tpu_forwards_quic));
    let h3 = h2.and(sent::any_run(13, utf8_opt(geyser::text_opt(info.tpu_forwards_quic)), tag));
    sent::lemma_both(
        s3,
        h3,
        plugin::socket_field(14, geyser::text_opt(info.tpu_vote_udp)),
        sent::any_run(14, utf8_opt(geyser::text_opt(info.tpu_vote_udp)), tag),
        tag,
    );
    let s4 = s3 + plugin::socket_field(14, geyser::text_opt(info.tpu_vote_udp));
    let h4 = h3.and(sent::any_run(14, utf8_opt(geyser::text_opt(info.tpu_vote_udp)), tag));
    sent::lemma_both(
        s4,
        h4,
        plugin::socket_field(15, geyser::text_opt(info.tpu_vote_quic)),
        sent::any_run(15, utf8_opt(geyser::text_opt(info.tpu_vote_quic)), tag),
        tag,
    );
    let s5 = s4 + plugin::socket_field(15, geyser::text_opt(info.tpu_vote_quic));
    let h5 = h4.and(sent::any_run(15, utf8_opt(geyser::text_opt(info.tpu_vote_quic)), tag));
    sent::lemma_both(
        s5,
        h5,
        plugin::socket_field(16, geyser::text_opt(info.tvu_udp)),
        sent::any_run(16, utf8_opt(geyser::text_opt(info.tvu_udp)), tag),
        tag,
    );
    let s6 = s5 + plugin::socket_field(16, geyser::text_opt(info.tvu_udp));
    let h6 = h5.and(sent::any_run(16, utf8_opt(geyser::text_opt(info.tvu_udp)), tag));
    sent::lemma_both(
        s6,
        h6,
        plugin::socket_field(17, geyser::text_opt(info.tvu_quic)),
        sent::any_run(17, utf8_opt(geyser::text_opt(info.tvu_quic)), tag),
        tag,
    );
    let s7 = s6 + plugin::socket_field(17, geyser::text_opt(info.tvu_quic));
    let h7 = h6.and(sent::any_run(17, utf8_opt(geyser::text_opt(info.tvu_quic)), tag));
    sent::lemma_both(
        s7,
        h7,
        plugin::socket_field(18, geyser::text_opt(info.serve_repair_udp)),
        sent::any_run(18, utf8_opt(geyser::text_opt(info.serve_repair_udp)), tag),
        tag,
    );
    let s8 = s7 + plugin::socket_field(18, geyser::text_opt(info.serve_repair_udp));
    let h8 = h7.and(sent::any_run(18, utf8_opt(geyser::text_opt(info.serve_repair_udp)), tag));
    sent::lemma_both(
        s8,
        h8,
        plugin::socket_field(19, geyser::text_opt(info.serve_repair_quic)),
        sent::any_run(19, utf8_opt(geyser::text_opt(info.serve_repair_quic)), tag),
        tag,
    );
    let s9 = s8 + plugin::socket_field(19, geyser::text_opt(info.serve_repair_quic));
    let h9 = h8.and(sent::any_run(19, utf8_opt(geyser::text_opt(info.serve_repair_quic)), tag));
    sent::lemma_both(
        s9,
        h9,
        plugin::socket_field(20, geyser::text_opt(info.rpc)),
        sent::any_run(20, utf8_opt(geyser::text_opt(info.rpc)), tag),
        tag,
    );
    let s10 = s9 + plugin::socket_field(20, geyser::text_opt(info.rpc));
    let h10 = h9.and(sent::any_run(20, utf8_opt(geyser::text_opt(info.rpc)), tag));
    sent::lemma_both(
        s10,
        h10,
        plugin::socket_field(21, geyser::text_opt(info.rpc_pubsub)),
        sent::any_run(21, utf8_opt(geyser::text_opt(info.rpc_pubsub)), tag),
        tag,
    );
    let s11 = s10 + plugin::socket_field(21, geyser::text_opt(info.rpc_pubsub));
    let h11 = h10.and(sent::any_run(21, utf8_opt(geyser::text_opt(info.rpc_pubsub)), tag));
    sent::lemma_both(
        s11,
        h11,
        plugin::socket_field(22, geyser::text_opt(info.alpenglow)),
        sent::any_run(22, utf8_opt(geyser::text_opt(info.alpenglow)), tag),
        tag,
    );
    let s12 = s11 + plugin::socket_field(22, geyser::text_opt(info.alpenglow));
    let h12 = h11.and(sent::any_run(22, utf8_opt(geyser::text_opt(info.alpenglow)), tag));
    assert(s12 == plugin::contact_sockets(info));
}

/// What the fields with the tag hold.
spec fn footer_held(slot: Slot, bank_id: BankId, view: BlockFooterView, tag: u32) -> Held {
    sent::nonzero(1, slot, tag)
        .and(sent::nonzero(2, bank_id, tag))
        .and(sent::nonzero(3, view.version as u64, tag))
        .and(sent::one_run(4, view.bank_hash@, tag))
        .and(sent::nonzero(5, view.block_producer_time_nanos, tag))
        .and(sent::nonempty(6, view.block_user_agent@, tag))
        .and(sent::nonempty(7, view.footer@, tag))
}

proof fn lemma_footer(slot: Slot, bank_id: BankId, view: BlockFooterView, tag: u32)
    requires
        plugin::footer_bytes(slot, bank_id, view).len() <= u64::MAX,
    ensures
        sent::holds(
            plugin::footer_bytes(slot, bank_id, view),
            tag,
            footer_held(slot, bank_id, view, tag),
        ),
{
    sent::lemma_nonzero(1, slot, tag);
    sent::lemma_nonzero(2, bank_id, tag);
    sent::lemma_nonzero(3, view.version as u64, tag);
    sent::lemma_run(4, view.bank_hash@, tag);
    sent::lemma_nonzero(5, view.block_producer_time_nanos, tag);
    sent::lemma_nonempty(6, view.block_user_agent@, tag);
    sent::lemma_nonempty(7, view.footer@, tag);
    let s1 = wire::varint_field_opt(1, slot);
    let h1 = sent::nonzero(1, slot, tag);
    sent::lemma_both(
        s1,
        h1,
        wire::varint_field_opt(2, bank_id),
        sent::nonzero(2, bank_id, tag),
        tag,
    );
    let s2 = s1 + wire::varint_field_opt(2, bank_id);
    let h2 = h1.and(sent::nonzero(2, bank_id, tag));
    sent::lemma_both(
        s2,
        h2,
        wire::varint_field_opt(3, view.version as u64),
        sent::nonzero(3, view.version as u64, tag),
        tag,
    );
    let s3 = s2 + wire::varint_field_opt(3, view.version as u64);
    let h3 = h2.and(sent::nonzero(3, view.version as u64, tag));
    sent::lemma_both(
        s3,
        h3,
        wire::bytes_field(4, view.bank_hash@),
        sent::one_run(4, view.bank_hash@, tag),
        tag,
    );
    let s4 = s3 + wire::bytes_field(4, view.bank_hash@);
    let h4 = h3.and(sent::one_run(4, view.bank_hash@, tag));
    sent::lemma_both(
        s4,
        h4,
        wire::varint_field_opt(5, view.block_producer_time_nanos),
        sent::nonzero(5, view.block_producer_time_nanos, tag),
        tag,
    );
    let s5 = s4 + wire::varint_field_opt(5, view.block_producer_time_nanos);
    let h5 = h4.and(sent::nonzero(5, view.block_producer_time_nanos, tag));
    sent::lemma_both(
        s5,
        h5,
        wire::bytes_field_opt(6, view.block_user_agent@),
        sent::nonempty(6, view.block_user_agent@, tag),
        tag,
    );
    let s6 = s5 + wire::bytes_field_opt(6, view.block_user_agent@);
    let h6 = h5.and(sent::nonempty(6, view.block_user_agent@, tag));
    sent::lemma_both(
        s6,
        h6,
        wire::bytes_field_opt(7, view.footer@),
        sent::nonempty(7, view.footer@, tag),
        tag,
    );
    let s7 = s6 + wire::bytes_field_opt(7, view.footer@);
    let h7 = h6.and(sent::nonempty(7, view.footer@, tag));
    assert(s7 == plugin::footer_bytes(slot, bank_id, view));
}

/// What the fields with the tag hold.
spec fn update_parent_held(
    slot: Slot,
    second: u64,
    parent_slot: Slot,
    parent_block_id: Seq<u8>,
    tag: u32,
) -> Held {
    sent::nonzero(1, slot, tag)
        .and(sent::nonzero(2, second, tag))
        .and(sent::nonzero(3, parent_slot, tag))
        .and(sent::one_run(4, parent_block_id, tag))
}

proof fn lemma_update_parent(
    slot: Slot,
    second: u64,
    parent_slot: Slot,
    parent_block_id: Seq<u8>,
    tag: u32,
)
    requires
        plugin::update_parent_bytes(slot, second, parent_slot, parent_block_id).len() <= u64::MAX,
    ensures
        sent::holds(
            plugin::update_parent_bytes(slot, second, parent_slot, parent_block_id),
            tag,
            update_parent_held(slot, second, parent_slot, parent_block_id, tag),
        ),
{
    sent::lemma_nonzero(1, slot, tag);
    sent::lemma_nonzero(2, second, tag);
    sent::lemma_nonzero(3, parent_slot, tag);
    sent::lemma_run(4, parent_block_id, tag);
    let s1 = wire::varint_field_opt(1, slot);
    let h1 = sent::nonzero(1, slot, tag);
    sent::lemma_both(s1, h1, wire::varint_field_opt(2, second), sent::nonzero(2, second, tag), tag);
    let s2 = s1 + wire::varint_field_opt(2, second);
    let h2 = h1.and(sent::nonzero(2, second, tag));
    sent::lemma_both(
        s2,
        h2,
        wire::varint_field_opt(3, parent_slot),
        sent::nonzero(3, parent_slot, tag),
        tag,
    );
    let s3 = s2 + wire::varint_field_opt(3, parent_slot);
    let h3 = h2.and(sent::nonzero(3, parent_slot, tag));
    sent::lemma_both(
        s3,
        h3,
        wire::bytes_field(4, parent_block_id),
        sent::one_run(4, parent_block_id, tag),
        tag,
    );
    let s4 = s3 + wire::bytes_field(4, parent_block_id);
    let h4 = h3.and(sent::one_run(4, parent_block_id, tag));
    assert(s4 == plugin::update_parent_bytes(slot, second, parent_slot, parent_block_id));
}

/// What the fields with the tag hold.
spec fn deshred_held(tx: ReplicaDeshredTransactionInfo, tag: u32) -> Held {
    sent::one_run(1, tx.signature@, tag)
        .and(sent::flag(2, tx.is_vote, tag))
        .and(sent::one_run(3, tx.transaction@, tag))
        .and(loaded_held(tx.loaded_addresses, tag))
        .and(sent::nonzero(6, tx.completed_data_set_starting_shred_index as u64, tag))
        .and(sent::nonzero(7, tx.completed_data_set_ending_shred_index_exclusive as u64, tag))
}

proof fn lemma_deshred(tx: ReplicaDeshredTransactionInfo, tag: u32)
    requires
        plugin::deshred_info_bytes(tx).len() <= u64::MAX,
    ensures
        sent::holds(plugin::deshred_info_bytes(tx), tag, deshred_held(tx, tag)),
{
    sent::lemma_run(1, tx.signature@, tag);
    sent::lemma_flag(2, tx.is_vote, tag);
    sent::lemma_run(3, tx.transaction@, tag);
    lemma_loaded(tx.loaded_addresses, tag);
    sent::lemma_nonzero(6, tx.completed_data_set_starting_shred_index as u64, tag);
    sent::lemma_nonzero(7, tx.completed_data_set_ending_shred_index_exclusive as u64, tag);
    let s1 = wire::bytes_field(1, tx.signature@);
    let h1 = sent::one_run(1, tx.signature@, tag);
    sent::lemma_both(
        s1,
        h1,
        wire::bool_field_opt(2, tx.is_vote),
        sent::flag(2, tx.is_vote, tag),
        tag,
    );
    let s2 = s1 + wire::bool_field_opt(2, tx.is_vote);
    let h2 = h1.and(sent::flag(2, tx.is_vote, tag));
    sent::lemma_both(
        s2,
        h2,
        wire::bytes_field(3, tx.transaction@),
        sent::one_run(3, tx.transaction@, tag),
        tag,
    );
    let s3 = s2 + wire::bytes_field(3, tx.transaction@);
    let h3 = h2.and(sent::one_run(3, tx.transaction@, tag));
    sent::lemma_both(
        s3,
        h3,
        plugin::loaded_bytes(tx.loaded_addresses),
        loaded_held(tx.loaded_addresses, tag),
        tag,
    );
    let s4 = s3 + plugin::loaded_bytes(tx.loaded_addresses);
    let h4 = h3.and(loaded_held(tx.loaded_addresses, tag));
    sent::lemma_both(
        s4,
        h4,
        wire::varint_field_opt(6, tx.completed_data_set_starting_shred_index as u64),
        sent::nonzero(6, tx.completed_data_set_starting_shred_index as u64, tag),
        tag,
    );
    let s5 = s4 + wire::varint_field_opt(6, tx.completed_data_set_starting_shred_index as u64);
    let h5 = h4.and(sent::nonzero(6, tx.completed_data_set_starting_shred_index as u64, tag));
    sent::lemma_both(
        s5,
        h5,
        wire::varint_field_opt(7, tx.completed_data_set_ending_shred_index_exclusive as u64),
        sent::nonzero(7, tx.completed_data_set_ending_shred_index_exclusive as u64, tag),
        tag,
    );
    let s6 = s5 + wire::varint_field_opt(
        7,
        tx.completed_data_set_ending_shred_index_exclusive as u64,
    );
    let h6 = h5.and(
        sent::nonzero(7, tx.completed_data_set_ending_shred_index_exclusive as u64, tag),
    );
    assert(s6 == plugin::deshred_info_bytes(tx));
}

/// A node is told of with its key, its numbers and each of its sockets that it has.
pub proof fn law_contact_fields(info: ReplicaContactInfo)
    requires
        (plugin::contact_numbers(info) + plugin::contact_sockets(info)).len() <= u64::MAX,
    ensures
        ({
            let s = plugin::contact_numbers(info) + plugin::contact_sockets(info);
            &&& sent::bytes(s, 1) == Some(info.pubkey@)
            &&& sent::number(s, 2) == Some(info.wallclock as u64)
            &&& sent::number(s, 3) == Some(info.outset as u64)
            &&& sent::number(s, 4) == Some(info.shred_version as u64)
            &&& sent::number(s, 5) == Some(info.version_major as u64)
            &&& sent::number(s, 6) == Some(info.version_minor as u64)
            &&& sent::number(s, 7) == Some(info.version_patch as u64)
            &&& sent::number(s, 8) == Some(info.version_commit as u64)
            &&& sent::number(s, 9) == Some(info.version_feature_set as u64)
            &&& sent::number(s, 10) == Some(info.version_client_id as u64)
            &&& sent::bytes_if_any(s, 11) == Some(
                match info.gossip {
                    Some(addr) => Some(vstd::utf8::encode_utf8(addr@)),
                    None => None,
                },
            )
            &&& sent::bytes_if_any(s, 12) == Some(
                match info.tpu_quic {
                    Some(addr) => Some(vstd::utf8::encode_utf8(addr@)),
                    None => None,
                },
            )
            &&& sent::bytes_if_any(s, 13) == Some(
                match info.tpu_forwards_quic {
                    Some(addr) => Some(vstd::utf8::encode_utf8(addr@)),
                    None => None,
                },
            )
            &&& sent::bytes_if_any(s, 14) == Some(
                match info.tpu_vote_udp {
                    Some(addr) => Some(vstd::utf8::encode_utf8(addr@)),
                    None => None,
                },
            )
            &&& sent::bytes_if_any(s, 15) == Some(
                match info.tpu_vote_quic {
                    Some(addr) => Some(vstd::utf8::encode_utf8(addr@)),
                    None => None,
                },
            )
            &&& sent::bytes_if_any(s, 16) == Some(
                match info.tvu_udp {
                    Some(addr) => Some(vstd::utf8::encode_utf8(addr@)),
                    None => None,
                },
            )
            &&& sent::bytes_if_any(s, 17) == Some(
                match info.tvu_quic {
                    Some(addr) => Some(vstd::utf8::encode_utf8(addr@)),
                    None => None,
                },
            )
            &&& sent::bytes_if_any(s, 18) == Some(
                match info.serve_repair_udp {
                    Some(addr) => Some(vstd::utf8::encode_utf8(addr@)),
                    None => None,
                },
            )
            &&& sent::bytes_if_any(s, 19) == Some(
                match info.serve_repair_quic {
                    Some(addr) => Some(vstd::utf8::encode_utf8(addr@)),
                    None => None,
                },
            )
            &&& sent::bytes_if_any(s, 20) == Some(
                match info.rpc {
                    Some(addr) => Some(vstd::utf8::encode_utf8(addr@)),
                    None => None,
                },
            )
            &&& sent::bytes_if_any(s, 21) == Some(
                match info.rpc_pubsub {
                    Some(addr) => Some(vstd::utf8::encode_utf8(addr@)),
                    None => None,
                },
            )
            &&& sent::bytes_if_any(s, 22) == Some(
                match info.alpenglow {
                    Some(addr) => Some(vstd::utf8::encode_utf8(addr@)),
                    None => None,
                },
            )
        }),
{
    lemma_contact_numbers(info);
    lemma_contact_sockets_a(info);
    lemma_contact_sockets_b(info);
    lemma_contact_sockets_c(info);
    lemma_contact_sockets_d(info);
}

proof fn lemma_contact_numbers(info: ReplicaContactInfo)
    requires
        (plugin::contact_numbers(info) + plugin::contact_sockets(info)).len() <= u64::MAX,
    ensures
        ({
            let s = plugin::contact_numbers(info) + plugin::contact_sockets(info);
            &&& sent::bytes(s, 1) == Some(info.pubkey@)
            &&& sent::number(s, 2) == Some(info.wallclock as u64)
            &&& sent::number(s, 3) == Some(info.outset as u64)
            &&& sent::number(s, 4) == Some(info.shred_version as u64)
            &&& sent::number(s, 5) == Some(info.version_major as u64)
            &&& sent::number(s, 6) == Some(info.version_minor as u64)
            &&& sent::number(s, 7) == Some(info.version_patch as u64)
            &&& sent::number(s, 8) == Some(info.version_commit as u64)
            &&& sent::number(s, 9) == Some(info.version_feature_set as u64)
            &&& sent::number(s, 10) == Some(info.version_client_id as u64)
        }),
{
    lemma_contact_number(info, 1);
    lemma_contact_number(info, 2);
    lemma_contact_number(info, 3);
    lemma_contact_number(info, 4);
    lemma_contact_number(info, 5);
    lemma_contact_number(info, 6);
    lemma_contact_number(info, 7);
    lemma_contact_number(info, 8);
    lemma_contact_number(info, 9);
    lemma_contact_number(info, 10);
    if info.pubkey@.len() == 0 {
        assert(info.pubkey@ =~= Seq::<u8>::empty());
    }
}

#[verifier::rlimit(40)]
proof fn lemma_contact_sockets_a(info: ReplicaContactInfo)
    requires
        (plugin::contact_numbers(info) + plugin::contact_sockets(info)).len() <= u64::MAX,
    ensures
        ({
            let s = plugin::contact_numbers(info) + plugin::contact_sockets(info);
            &&& sent::bytes_if_any(s, 11) == Some(utf8_opt(geyser::text_opt(info.gossip)))
            &&& sent::bytes_if_any(s, 12) == Some(utf8_opt(geyser::text_opt(info.tpu_quic)))
            &&& sent::bytes_if_any(s, 13) == Some(
                utf8_opt(geyser::text_opt(info.tpu_forwards_quic)),
            )
        }),
{
    lemma_contact_socket(info, 11);
    lemma_contact_socket(info, 12);
    lemma_contact_socket(info, 13);
}

#[verifier::rlimit(40)]
proof fn lemma_contact_sockets_b(info: ReplicaContactInfo)
    requires
        (plugin::contact_numbers(info) + plugin::contact_sockets(info)).len() <= u64::MAX,
    ensures
        ({
            let s = plugin::contact_numbers(info) + plugin::contact_sockets(info);
            &&& sent::bytes_if_any(s, 14) == Some(utf8_opt(geyser::text_opt(info.tpu_vote_udp)))
            &&& sent::bytes_if_any(s, 15) == Some(utf8_opt(geyser::text_opt(info.tpu_vote_quic)))
            &&& sent::bytes_if_any(s, 16) == Some(utf8_opt(geyser::text_opt(info.tvu_udp)))
        }),
{
    lemma_contact_socket(info, 14);
    lemma_contact_socket(info, 15);
    lemma_contact_socket(info, 16);
}

#[verifier::rlimit(40)]
proof fn lemma_contact_sockets_c(info: ReplicaContactInfo)
    requires
        (plugin::contact_numbers(info) + plugin::contact_sockets(info)).len() <= u64::MAX,
    ensures
        ({
            let s = plugin::contact_numbers(info) + plugin::contact_sockets(info);
            &&& sent::bytes_if_any(s, 17) == Some(utf8_opt(geyser::text_opt(info.tvu_quic)))
            &&& sent::bytes_if_any(s, 18) == Some(utf8_opt(geyser::text_opt(info.serve_repair_udp)))
            &&& sent::bytes_if_any(s, 19) == Some(
                utf8_opt(geyser::text_opt(info.serve_repair_quic)),
            )
        }),
{
    lemma_contact_socket(info, 17);
    lemma_contact_socket(info, 18);
    lemma_contact_socket(info, 19);
}

#[verifier::rlimit(40)]
proof fn lemma_contact_sockets_d(info: ReplicaContactInfo)
    requires
        (plugin::contact_numbers(info) + plugin::contact_sockets(info)).len() <= u64::MAX,
    ensures
        ({
            let s = plugin::contact_numbers(info) + plugin::contact_sockets(info);
            &&& sent::bytes_if_any(s, 20) == Some(utf8_opt(geyser::text_opt(info.rpc)))
            &&& sent::bytes_if_any(s, 21) == Some(utf8_opt(geyser::text_opt(info.rpc_pubsub)))
            &&& sent::bytes_if_any(s, 22) == Some(utf8_opt(geyser::text_opt(info.alpenglow)))
        }),
{
    lemma_contact_socket(info, 20);
    lemma_contact_socket(info, 21);
    lemma_contact_socket(info, 22);
}

/// A number is none of the sockets.
proof fn lemma_contact_number(info: ReplicaContactInfo, tag: u32)
    requires
        tag <= 10,
        (plugin::contact_numbers(info) + plugin::contact_sockets(info)).len() <= u64::MAX,
    ensures
        sent::held(plugin::contact_numbers(info) + plugin::contact_sockets(info), tag) == Some(
            numbers_held(info, tag),
        ),
{
    let a = plugin::contact_numbers(info);
    let b = plugin::contact_sockets(info);
    lemma_numbers(info, tag);
    lemma_sockets(info, tag);
    sent::lemma_both(a, numbers_held(info, tag), b, sockets_held(info, tag), tag);
    assert(sockets_held(info, tag) == Held::nothing());
    sent::lemma_held(a + b, tag, numbers_held(info, tag));
}

/// A socket is none of the numbers.
proof fn lemma_contact_socket(info: ReplicaContactInfo, tag: u32)
    requires
        tag > 10,
        (plugin::contact_numbers(info) + plugin::contact_sockets(info)).len() <= u64::MAX,
    ensures
        sent::held(plugin::contact_numbers(info) + plugin::contact_sockets(info), tag) == Some(
            sockets_held(info, tag),
        ),
{
    let a = plugin::contact_numbers(info);
    let b = plugin::contact_sockets(info);
    lemma_numbers(info, tag);
    lemma_sockets(info, tag);
    sent::lemma_both(a, numbers_held(info, tag), b, sockets_held(info, tag), tag);
    assert(numbers_held(info, tag) == Held::nothing());
    let h = sockets_held(info, tag);
    assert(Held::nothing().and(h).numbers =~= h.numbers);
    assert(Held::nothing().and(h).runs =~= h.runs);
    sent::lemma_held(a + b, tag, h);
}

/// A block footer is told of with the slot, the bank and all that it says.
pub proof fn law_footer_fields(slot: Slot, bank_id: BankId, view: BlockFooterView)
    requires
        plugin::footer_bytes(slot, bank_id, view).len() <= u64::MAX,
    ensures
        ({
            let s = plugin::footer_bytes(slot, bank_id, view);
            &&& sent::number(s, 1) == Some(slot)
            &&& sent::number(s, 2) == Some(bank_id)
            &&& sent::number(s, 3) == Some(view.version as u64)
            &&& sent::bytes_if_any(s, 4) == Some(Some(view.bank_hash@))
            &&& sent::number(s, 5) == Some(view.block_producer_time_nanos)
            &&& sent::bytes(s, 6) == Some(view.block_user_agent@)
            &&& sent::bytes(s, 7) == Some(view.footer@)
        }),
{
    let s = plugin::footer_bytes(slot, bank_id, view);
    lemma_footer(slot, bank_id, view, 1);
    sent::lemma_held(s, 1, footer_held(slot, bank_id, view, 1));
    lemma_footer(slot, bank_id, view, 2);
    sent::lemma_held(s, 2, footer_held(slot, bank_id, view, 2));
    lemma_footer(slot, bank_id, view, 3);
    sent::lemma_held(s, 3, footer_held(slot, bank_id, view, 3));
    lemma_footer(slot, bank_id, view, 4);
    sent::lemma_held(s, 4, footer_held(slot, bank_id, view, 4));
    lemma_footer(slot, bank_id, view, 5);
    sent::lemma_held(s, 5, footer_held(slot, bank_id, view, 5));
    lemma_footer(slot, bank_id, view, 6);
    sent::lemma_held(s, 6, footer_held(slot, bank_id, view, 6));
    lemma_footer(slot, bank_id, view, 7);
    sent::lemma_held(s, 7, footer_held(slot, bank_id, view, 7));
    if view.block_user_agent@.len() == 0 {
        assert(view.block_user_agent@ =~= Seq::<u8>::empty());
    }
    if view.footer@.len() == 0 {
        assert(view.footer@ =~= Seq::<u8>::empty());
    }
}

/// A changed parent is told of with the slot, what changed, and the parent.
pub proof fn law_update_parent_fields(
    slot: Slot,
    second: u64,
    parent_slot: Slot,
    parent_block_id: Seq<u8>,
)
    requires
        plugin::update_parent_bytes(slot, second, parent_slot, parent_block_id).len() <= u64::MAX,
    ensures
        ({
            let s = plugin::update_parent_bytes(slot, second, parent_slot, parent_block_id);
            &&& sent::number(s, 1) == Some(slot)
            &&& sent::number(s, 2) == Some(second)
            &&& sent::number(s, 3) == Some(parent_slot)
            &&& sent::bytes_if_any(s, 4) == Some(Some(parent_block_id))
        }),
{
    let s = plugin::update_parent_bytes(slot, second, parent_slot, parent_block_id);
    lemma_update_parent(slot, second, parent_slot, parent_block_id, 1);
    sent::lemma_held(s, 1, update_parent_held(slot, second, parent_slot, parent_block_id, 1));
    lemma_update_parent(slot, second, parent_slot, parent_block_id, 2);
    sent::lemma_held(s, 2, update_parent_held(slot, second, parent_slot, parent_block_id, 2));
    lemma_update_parent(slot, second, parent_slot, parent_block_id, 3);
    sent::lemma_held(s, 3, update_parent_held(slot, second, parent_slot, parent_block_id, 3));
    lemma_update_parent(slot, second, parent_slot, parent_block_id, 4);
    sent::lemma_held(s, 4, update_parent_held(slot, second, parent_slot, parent_block_id, 4));
}

/// A transaction before replay is told of with its signature, itself, whether it is a vote, the addresses
/// that it loads, in order, and where its shreds start and end.
#[verifier::rlimit(40)]
#[verifier::spinoff_prover]
pub proof fn law_deshred_fields(tx: ReplicaDeshredTransactionInfo)
    requires
        plugin::deshred_info_bytes(tx).len() <= u64::MAX,
    ensures
        ({
            let s = plugin::deshred_info_bytes(tx);
            &&& sent::bytes_if_any(s, 1) == Some(Some(tx.signature@))
            &&& sent::number(s, 2) == Some(
                if tx.is_vote {
                    1u64
                } else {
                    0
                },
            )
            &&& sent::bytes_if_any(s, 3) == Some(Some(tx.transaction@))
            &&& sent::each(s, 4) == Some(
                match tx.loaded_addresses {
                    Some(loaded) => geyser::bytes_each(loaded.writable@),
                    None => Seq::empty(),
                },
            )
            &&& sent::each(s, 5) == Some(
                match tx.loaded_addresses {
                    Some(loaded) => geyser::bytes_each(loaded.readonly@),
                    None => Seq::empty(),
                },
            )
            &&& sent::number(s, 6) == Some(tx.completed_data_set_starting_shred_index as u64)
            &&& sent::number(s, 7) == Some(
                tx.completed_data_set_ending_shred_index_exclusive as u64,
            )
        }),
{
    let s = plugin::deshred_info_bytes(tx);
    lemma_deshred(tx, 1);
    sent::lemma_held(s, 1, deshred_held(tx, 1));
    lemma_deshred(tx, 2);
    sent::lemma_held(s, 2, deshred_held(tx, 2));
    lemma_deshred(tx, 3);
    sent::lemma_held(s, 3, deshred_held(tx, 3));
    lemma_deshred(tx, 4);
    sent::lemma_held(s, 4, deshred_held(tx, 4));
    lemma_deshred(tx, 5);
    sent::lemma_held(s, 5, deshred_held(tx, 5));
    lemma_deshred(tx, 6);
    sent::lemma_held(s, 6, deshred_held(tx, 6));
    lemma_deshred(tx, 7);
    sent::lemma_held(s, 7, deshred_held(tx, 7));
    if let Some(loaded) = tx.loaded_addresses {
        if loaded.writable@.len() == 0 {
            assert(geyser::bytes_each(loaded.writable@) =~= Seq::<Seq<u8>>::empty());
        }
        if loaded.readonly@.len() == 0 {
            assert(geyser::bytes_each(loaded.readonly@) =~= Seq::<Seq<u8>>::empty());
        }
    }
}

/// What a validator told of carries the time, and the update under its tag and under no other.
pub proof fn law_notified_envelope(m: &ProtobufMessage, created_at: Timestamp, other: u32)
    requires
        m.encoded(created_at).len() <= u64::MAX,
    ensures
        ({
            let s = m.encoded(created_at);
            let tag: u32 = match m {
                ProtobufMessage::Account { .. } => 2,
                ProtobufMessage::Slot { .. } => 3,
                ProtobufMessage::Transaction { .. } => 4,
                ProtobufMessage::BlockMeta { .. } => 7,
                ProtobufMessage::Entry { .. } => 8,
                ProtobufMessage::DeshredTransaction { .. } => 100,
                ProtobufMessage::ContactInfo { .. } => 101,
                ProtobufMessage::ContactInfoRemoved { .. } => 102,
                ProtobufMessage::BlockFooter { .. } => 103,
                ProtobufMessage::EntryUpdateParent { .. } => 104,
                ProtobufMessage::DeshredUpdateParent { .. } => 105,
            };
            &&& sent::bytes_if_any(s, tag) == Some(Some(m.payload()))
            &&& other != tag && other != 11 ==> sent::bytes_if_any(s, other) == Some(
                None::<Seq<u8>>,
            )
            &&& sent::time(s) == Some((created_at.seconds as u64, created_at.nanos as u64))
        }),
{
    let ts = codec::timestamp_bytes(created_at);
    lemma_update(m.tag(), m.payload(), created_at, m.tag());
    lemma_update(m.tag(), m.payload(), created_at, 11);
    lemma_update(m.tag(), m.payload(), created_at, other);
    sent::law_timestamp_fields(created_at);
}

proof fn lemma_update(field: u32, payload: Seq<u8>, created_at: Timestamp, tag: u32)
    requires
        1 <= field <= wire::MAX_TAG,
        field != 11,
        protobuf::update_bytes(field, payload, created_at).len() <= u64::MAX,
    ensures
        sent::held(protobuf::update_bytes(field, payload, created_at), tag) == Some(
            if field < 11 {
                sent::one_run(field, payload, tag).and(
                    sent::one_run(11, codec::timestamp_bytes(created_at), tag),
                )
            } else {
                sent::one_run(11, codec::timestamp_bytes(created_at), tag).and(
                    sent::one_run(field, payload, tag),
                )
            },
        ),
{
    let ts = codec::timestamp_bytes(created_at);
    let a = wire::bytes_field(field, payload);
    let b = wire::bytes_field(11, ts);
    let x = sent::one_run(field, payload, tag);
    let y = sent::one_run(11, ts, tag);
    sent::lemma_run(field, payload, tag);
    sent::lemma_run(11, ts, tag);
    if field < 11 {
        sent::lemma_both(a, x, b, y, tag);
        sent::lemma_held(a + b, tag, x.and(y));
    } else {
        sent::lemma_both(b, y, a, x, tag);
        sent::lemma_held(b + a, tag, y.and(x));
    }
}

/// What a validator told of in the stream holds what it told of.
pub proof fn law_notified(m: &ProtobufMessage)
    requires
        m.payload().len() <= u64::MAX,
    ensures
        ({
            let s = m.payload();
            match m {
                ProtobufMessage::Account { slot, account } => {
                    &&& sent::bytes_if_any(s, 1) matches Some(Some(a)) && sent::account_with_parts(
                        a,
                        account@,
                        Seq::empty(),
                    )
                    &&& sent::number(s, 2) == Some(*slot)
                    &&& sent::number(s, 3) == Some(0u64)
                },
                ProtobufMessage::Slot { slot, parent, status } => {
                    &&& sent::number(s, 1) == Some(*slot)
                    &&& sent::number_if_any(s, 2) == Some(*parent)
                    &&& sent::number(s, 3) == Some(
                        match status {
                            GeyserSlotStatus::Processed => 0u64,
                            GeyserSlotStatus::Confirmed => 1,
                            GeyserSlotStatus::Rooted => 2,
                            GeyserSlotStatus::FirstShredReceived => 3,
                            GeyserSlotStatus::Completed => 4,
                            GeyserSlotStatus::CreatedBank => 5,
                            GeyserSlotStatus::Dead(_) => 6,
                        },
                    )
                    &&& sent::bytes_if_any(s, 4) == Some(
                        match status {
                            GeyserSlotStatus::Dead(error) => Some(
                                vstd::utf8::encode_utf8(error@),
                            ),
                            _ => None,
                        },
                    )
                },
                ProtobufMessage::Transaction { slot, transaction } => {
                    &&& sent::bytes_if_any(s, 1) == Some(
                        Some(encode::transaction_info_bytes(transaction@)),
                    )
                    &&& sent::number(s, 2) == Some(*slot)
                },
                ProtobufMessage::Entry { entry } => s == encode::entry_bytes(entry@),
                ProtobufMessage::BlockMeta { blockinfo } => s == encode::block_meta_bytes(
                    blockinfo@,
                ),
                ProtobufMessage::DeshredTransaction { slot, transaction } => {
                    &&& sent::bytes_if_any(s, 1) == Some(
                        Some(plugin::deshred_info_bytes(**transaction)),
                    )
                    &&& sent::number(s, 2) == Some(*slot)
                },
                ProtobufMessage::ContactInfo { info } => s == plugin::contact_numbers(**info)
                    + plugin::contact_sockets(**info),
                ProtobufMessage::ContactInfoRemoved { pubkey } => sent::bytes(s, 1) == Some(
                    pubkey@,
                ),
                ProtobufMessage::BlockFooter { slot, bank_id, block_footer } => s
                    == plugin::footer_bytes(*slot, *bank_id, **block_footer),
                ProtobufMessage::EntryUpdateParent { info } => {
                    &&& sent::number(s, 1) == Some(info.slot)
                    &&& sent::number(s, 2) == Some(info.cleared_bank_id)
                    &&& sent::number(s, 3) == Some(info.parent_slot)
                    &&& sent::bytes_if_any(s, 4) == Some(Some(info.parent_block_id@))
                },
                ProtobufMessage::DeshredUpdateParent { info } => {
                    &&& sent::number(s, 1) == Some(info.slot)
                    &&& sent::number(s, 2) == Some(info.update_parent_fec_set_index as u64)
                    &&& sent::number(s, 3) == Some(info.parent_slot)
                    &&& sent::bytes_if_any(s, 4) == Some(Some(info.parent_block_id@))
                },
            }
        }),
{
    match m {
        ProtobufMessage::Account { slot, account } => {
            let v = AccountView { account: Some(account@), slot: *slot, is_startup: false };
            sent::law_account_fields(v);
            assert(encode::account_bytes(v).len() >= encode::account_info_bytes(account@).len());
            sent::law_account_info_fields(account@);
            filter::law_no_slice(account@.data);
        },
        ProtobufMessage::Slot { slot, parent, status } => {
            sent::law_slot_fields(
                SlotView {
                    slot: *slot,
                    parent: *parent,
                    status: geyser::slot_status_number(status.in_update()),
                    dead_error: status.dead_error(),
                },
            );
        },
        ProtobufMessage::Transaction { slot, transaction } => {
            sent::law_transaction_fields(encode::transaction_info_bytes(transaction@), *slot);
        },
        ProtobufMessage::DeshredTransaction { slot, transaction } => {
            sent::law_transaction_fields(plugin::deshred_info_bytes(**transaction), *slot);
        },
        ProtobufMessage::ContactInfoRemoved { pubkey } => {
            assert(pubkey@.len() <= wire::bytes_field_opt(1, pubkey@).len());
            sent::lemma_nonempty(1, pubkey@, 1);
            sent::lemma_held(m.payload(), 1, sent::nonempty(1, pubkey@, 1));
            if pubkey@.len() == 0 {
                assert(pubkey@ =~= Seq::<u8>::empty());
            }
        },
        ProtobufMessage::EntryUpdateParent { info } => {
            law_update_parent_fields(
                info.slot,
                info.cleared_bank_id,
                info.parent_slot,
                info.parent_block_id@,
            );
        },
        ProtobufMessage::DeshredUpdateParent { info } => {
            law_update_parent_fields(
                info.slot,
                info.update_parent_fec_set_index as u64,
                info.parent_slot,
                info.parent_block_id@,
            );
        },
        _ => {},
    }
}

/// The slot that the message is about.
pub proof fn law_notified_slot(m: &ProtobufMessage)
    ensures
        match m {
            ProtobufMessage::Account { slot, .. } => m.slot() == Some(*slot),
            ProtobufMessage::Slot { slot, .. } => m.slot() == Some(*slot),
            ProtobufMessage::Transaction { slot, .. } => m.slot() == Some(*slot),
            ProtobufMessage::Entry { entry } => m.slot() == Some(entry.slot),
            ProtobufMessage::BlockMeta { blockinfo } => m.slot() == Some(blockinfo.slot),
            ProtobufMessage::DeshredTransaction { slot, .. } => m.slot() == Some(*slot),
            ProtobufMessage::ContactInfo { .. } => m.slot() is None,
            ProtobufMessage::ContactInfoRemoved { .. } => m.slot() is None,
            ProtobufMessage::BlockFooter { slot, .. } => m.slot() == Some(*slot),
            ProtobufMessage::EntryUpdateParent { info } => m.slot() == Some(info.slot),
            ProtobufMessage::DeshredUpdateParent { info } => m.slot() == Some(info.slot),
        },
{
}

/// What a validator tells of beyond the stream says each thing that it told of in its own place.
pub proof fn law_told(m: &ProtobufMessage)
    ensures
        match m {
            ProtobufMessage::DeshredTransaction { slot, transaction: tx } => {
                &&& told::told(m) matches Some(RichatView::DeshredTransaction(d)) && {
                    &&& d.slot == *slot
                    &&& d.transaction matches Some(t) && {
                        &&& t.signature == tx.signature@
                        &&& t.is_vote == tx.is_vote
                        &&& t.transaction == Some(tx.transaction@)
                        &&& tx.loaded_addresses is None ==> t.loaded_writable_addresses.len() == 0
                            && t.loaded_readonly_addresses.len() == 0
                        &&& tx.loaded_addresses matches Some(loaded) ==> {
                            &&& t.loaded_writable_addresses == geyser::bytes_each(loaded.writable@)
                            &&& t.loaded_readonly_addresses == geyser::bytes_each(loaded.readonly@)
                        }
                        &&& t.completed_data_set_starting_shred_index
                            == tx.completed_data_set_starting_shred_index
                        &&& t.completed_data_set_ending_shred_index_exclusive
                            == tx.completed_data_set_ending_shred_index_exclusive
                    }
                }
            },
            ProtobufMessage::ContactInfo { info } => {
                &&& told::told(m) matches Some(RichatView::ContactInfo(n)) && {
                    &&& n.pubkey == info.pubkey@
                    &&& n.wallclock == info.wallclock
                    &&& n.outset == info.outset
                    &&& n.shred_version == info.shred_version
                    &&& n.version_major == info.version_major
                    &&& n.version_minor == info.version_minor
                    &&& n.version_patch == info.version_patch
                    &&& n.version_commit == info.version_commit
                    &&& n.version_feature_set == info.version_feature_set
                    &&& n.version_client_id == info.version_client_id
                    &&& n.gossip == geyser::text_opt(info.gossip)
                    &&& n.tpu_quic == geyser::text_opt(info.tpu_quic)
                    &&& n.tpu_forwards_quic == geyser::text_opt(info.tpu_forwards_quic)
                    &&& n.tpu_vote_udp == geyser::text_opt(info.tpu_vote_udp)
                    &&& n.tpu_vote_quic == geyser::text_opt(info.tpu_vote_quic)
                    &&& n.tvu_udp == geyser::text_opt(info.tvu_udp)
                    &&& n.tvu_quic == geyser::text_opt(info.tvu_quic)
                    &&& n.serve_repair_udp == geyser::text_opt(info.serve_repair_udp)
                    &&& n.serve_repair_quic == geyser::text_opt(info.serve_repair_quic)
                    &&& n.rpc == geyser::text_opt(info.rpc)
                    &&& n.rpc_pubsub == geyser::text_opt(info.rpc_pubsub)
                    &&& n.alpenglow == geyser::text_opt(info.alpenglow)
                }
            },
            ProtobufMessage::ContactInfoRemoved { pubkey } => {
                &&& told::told(m) matches Some(RichatView::ContactInfoRemoved { pubkey: key })
                    && key == pubkey@
            },
            ProtobufMessage::BlockFooter { slot, bank_id, block_footer: b } => {
                &&& told::told(m) matches Some(RichatView::BlockFooter(f)) && {
                    &&& f.slot == *slot
                    &&& f.bank_id == *bank_id
                    &&& f.version == b.version
                    &&& f.bank_hash == b.bank_hash@
                    &&& f.block_producer_time_nanos == b.block_producer_time_nanos
                    &&& f.block_user_agent == b.block_user_agent@
                    &&& f.footer == b.footer@
                }
            },
            ProtobufMessage::EntryUpdateParent { info } => {
                &&& told::told(m) matches Some(
                    RichatView::EntryUpdateParent {
                        slot,
                        cleared_bank_id,
                        parent_slot,
                        parent_block_id,
                    },
                ) && {
                    &&& slot == info.slot
                    &&& cleared_bank_id == info.cleared_bank_id
                    &&& parent_slot == info.parent_slot
                    &&& parent_block_id == info.parent_block_id@
                }
            },
            ProtobufMessage::DeshredUpdateParent { info } => {
                &&& told::told(m) matches Some(
                    RichatView::DeshredUpdateParent {
                        slot,
                        update_parent_fec_set_index,
                        parent_slot,
                        parent_block_id,
                    },
                ) && {
                    &&& slot == info.slot
                    &&& update_parent_fec_set_index == info.update_parent_fec_set_index
                    &&& parent_slot == info.parent_slot
                    &&& parent_block_id == info.parent_block_id@
                }
            },
            _ => told::told(m) is None,
        },
{
}

} // verus!
