//! What a validator tells of beyond the stream of other Geyser plugins is recognized for what it is,
//! and read back.
use vstd::prelude::*;

use crate::codec::Timestamp;
use crate::error::Failure;
use crate::fields;
use crate::fields::FieldStep;
use crate::geyser;
use crate::message;
use crate::message::{MessageView, ParseFailure};
use crate::parser;
use crate::plugin;
use crate::plugin::{BankId, BlockFooterView, ReplicaContactInfo};
use crate::protobuf::ProtobufMessage;
use crate::pubkey::Slot;
use crate::richat;
use crate::richat::{FieldKind, FooterView, Layout, NodeView, PlainMessage, PlainView, RichatModel};
use crate::richat::{RichatView, ValueView};
use crate::round_trip;
use crate::wire;
use crate::wire::WireType;

verus! {

/// The message of the layout with the first `k` of `values`.
spec fn filled(layout: Layout, values: Seq<ValueView>, k: int) -> PlainView {
    PlainView {
        layout,
        values: Seq::new(
            layout.count(),
            |i: int|
                if i < k {
                    values[i]
                } else {
                    richat::missing(layout.kind((i + 1) as u32))
                },
        ),
    }
}

/// Whether the fields turn the first `k` of `values` into the first `j`, wherever they lie.
spec fn fills(layout: Layout, values: Seq<ValueView>, k: int, s: Seq<u8>, j: int) -> bool {
    forall|at: nat| #[trigger]
        round_trip::leads::<PlainMessage>(
            filled(layout, values, k),
            at,
            s,
            filled(layout, values, j),
        )
}

proof fn lemma_both(
    layout: Layout,
    values: Seq<ValueView>,
    i: int,
    a: Seq<u8>,
    j: int,
    b: Seq<u8>,
    k: int,
)
    requires
        fills(layout, values, i, a, j),
        fills(layout, values, j, b, k),
    ensures
        fills(layout, values, i, a + b, k),
{
    let m0 = filled(layout, values, i);
    let m1 = filled(layout, values, j);
    let m2 = filled(layout, values, k);
    assert forall|at: nat| #[trigger] round_trip::leads::<PlainMessage>(m0, at, a + b, m2) by {
        assert(round_trip::leads::<PlainMessage>(m0, at, a, m1));
        assert(round_trip::leads::<PlainMessage>(m1, at + a.len(), b, m2));
        round_trip::lemma_leads_on::<PlainMessage>(m0, at, a, m1, b, m2);
    }
}

/// A field that is left out has its default value.
proof fn lemma_none(layout: Layout, values: Seq<ValueView>, tag: u32)
    requires
        1 <= tag <= layout.count(),
        values[tag - 1] == richat::missing(layout.kind(tag)),
    ensures
        fills(layout, values, tag - 1, Seq::empty(), tag as int),
{
    let m = filled(layout, values, tag - 1);
    assert(m.values =~= filled(layout, values, tag as int).values);
    assert forall|at: nat| #[trigger]
        round_trip::leads::<PlainMessage>(m, at, Seq::empty(), m) by {
        round_trip::lemma_leads_nowhere::<PlainMessage>(m, at);
    }
}

proof fn lemma_filled(layout: Layout, values: Seq<ValueView>, tag: u32)
    requires
        1 <= tag <= layout.count(),
    ensures
        filled(layout, values, tag - 1).with(tag, Some(values[tag - 1])) == filled(
            layout,
            values,
            tag as int,
        ),
{
    assert(filled(layout, values, tag - 1).with(tag, Some(values[tag - 1])).values =~= filled(
        layout,
        values,
        tag as int,
    ).values);
}

proof fn lemma_number(layout: Layout, values: Seq<ValueView>, tag: u32, v: u64)
    requires
        1 <= tag <= layout.count(),
        layout.kind(tag) == FieldKind::Number,
        values[tag - 1] == ValueView::Number(v),
    ensures
        fills(layout, values, tag - 1, wire::varint_field_opt(tag, v), tag as int),
{
    if v == 0 {
        lemma_none(layout, values, tag);
    } else {
        let m0 = filled(layout, values, tag - 1);
        let m1 = filled(layout, values, tag as int);
        let value = wire::varint_bytes(v as nat);
        lemma_filled(layout, values, tag);
        assert forall|at: nat| #[trigger]
            round_trip::leads::<PlainMessage>(m0, at, wire::varint_field_opt(tag, v), m1) by {
            let place = at + wire::key_bytes(tag, WireType::Varint).len();
            assert forall|t: Seq<u8>|
                #[trigger] PlainMessage::step(m0, tag, WireType::Varint, value + t, place) == Ok::<
                    (PlainView, nat),
                    Failure,
                >((m1, value.len())) by {
                wire::lemma_varint_round_trip(v, t);
            }
            round_trip::lemma_leads_field::<PlainMessage>(m0, at, tag, WireType::Varint, value, m1);
        }
    }
}

proof fn lemma_bytes(layout: Layout, values: Seq<ValueView>, tag: u32, p: Seq<u8>)
    requires
        1 <= tag <= layout.count(),
        p.len() <= u64::MAX,
        layout.kind(tag) == FieldKind::Bytes && values[tag - 1] == ValueView::Bytes(p)
            || layout.kind(tag) == FieldKind::Text && vstd::utf8::valid_utf8(p) && values[tag - 1]
            == ValueView::Text(Some(vstd::utf8::decode_utf8(p))),
    ensures
        fills(layout, values, tag - 1, wire::bytes_field(tag, p), tag as int),
        layout.kind(tag) == FieldKind::Bytes ==> fills(
            layout,
            values,
            tag - 1,
            wire::bytes_field_opt(tag, p),
            tag as int,
        ),
{
    let m0 = filled(layout, values, tag - 1);
    let m1 = filled(layout, values, tag as int);
    let value = wire::delimited(p);
    lemma_filled(layout, values, tag);
    assert forall|at: nat| #[trigger]
        round_trip::leads::<PlainMessage>(m0, at, wire::bytes_field(tag, p), m1) by {
        let place = at + wire::key_bytes(tag, WireType::LengthDelimited).len();
        assert forall|t: Seq<u8>|
            #[trigger] PlainMessage::step(m0, tag, WireType::LengthDelimited, value + t, place)
                == Ok::<(PlainView, nat), Failure>((m1, value.len())) by {
            round_trip::lemma_delimited(p, t, 0);
        }
        round_trip::lemma_leads_field::<PlainMessage>(
            m0,
            at,
            tag,
            WireType::LengthDelimited,
            value,
            m1,
        );
    }
    if layout.kind(tag) == FieldKind::Bytes && p.len() == 0 {
        assert(p =~= Seq::empty());
        lemma_none(layout, values, tag);
    }
}

proof fn lemma_socket(layout: Layout, values: Seq<ValueView>, tag: u32, addr: Option<Seq<char>>)
    requires
        1 <= tag <= layout.count(),
        plugin::socket_field(tag, addr).len() <= u64::MAX,
        layout.kind(tag) == FieldKind::Text,
        values[tag - 1] == ValueView::Text(addr),
    ensures
        fills(layout, values, tag - 1, plugin::socket_field(tag, addr), tag as int),
{
    match addr {
        Some(text) => {
            vstd::utf8::encode_utf8_valid_utf8(text);
            vstd::utf8::encode_utf8_decode_utf8(text);
            lemma_bytes(layout, values, tag, vstd::utf8::encode_utf8(text));
        },
        None => {
            lemma_none(layout, values, tag);
        },
    }
}

/// Fields that fill all values are decoded to them.
proof fn lemma_all(layout: Layout, values: Seq<ValueView>, s: Seq<u8>)
    requires
        values.len() == layout.count(),
        fills(layout, values, 0, s, layout.count() as int),
    ensures
        fields::all_fields::<PlainMessage>(richat::plain_empty(layout), s) == Ok::<
            PlainView,
            Failure,
        >(PlainView { layout, values }),
{
    let m0 = filled(layout, values, 0);
    let m1 = filled(layout, values, layout.count() as int);
    assert(m0.values =~= richat::plain_empty(layout).values);
    assert(m1.values =~= values);
    assert(round_trip::leads::<PlainMessage>(m0, 0, s, m1));
    round_trip::lemma_leads_all::<PlainMessage>(m0, s, m1);
}

/// The values of the fields of a node.
spec fn contact_values(info: ReplicaContactInfo) -> Seq<ValueView> {
    seq![
        ValueView::Bytes(info.pubkey@),
        ValueView::Number(info.wallclock),
        ValueView::Number(info.outset),
        ValueView::Number(info.shred_version as u64),
        ValueView::Number(info.version_major as u64),
        ValueView::Number(info.version_minor as u64),
        ValueView::Number(info.version_patch as u64),
        ValueView::Number(info.version_commit as u64),
        ValueView::Number(info.version_feature_set as u64),
        ValueView::Number(info.version_client_id as u64),
        ValueView::Text(geyser::text_opt(info.gossip)),
        ValueView::Text(geyser::text_opt(info.tpu_quic)),
        ValueView::Text(geyser::text_opt(info.tpu_forwards_quic)),
        ValueView::Text(geyser::text_opt(info.tpu_vote_udp)),
        ValueView::Text(geyser::text_opt(info.tpu_vote_quic)),
        ValueView::Text(geyser::text_opt(info.tvu_udp)),
        ValueView::Text(geyser::text_opt(info.tvu_quic)),
        ValueView::Text(geyser::text_opt(info.serve_repair_udp)),
        ValueView::Text(geyser::text_opt(info.serve_repair_quic)),
        ValueView::Text(geyser::text_opt(info.rpc)),
        ValueView::Text(geyser::text_opt(info.rpc_pubsub)),
        ValueView::Text(geyser::text_opt(info.alpenglow)),
    ]
}

proof fn lemma_contact_numbers(info: ReplicaContactInfo)
    requires
        plugin::contact_numbers(info).len() <= u64::MAX,
    ensures
        fills(Layout::ContactInfo, contact_values(info), 0, plugin::contact_numbers(info), 10),
{
    let l = Layout::ContactInfo;
    let vs = contact_values(info);
    let f1 = wire::bytes_field_opt(1, info.pubkey@);
    let f2 = wire::varint_field_opt(2, info.wallclock);
    let f3 = wire::varint_field_opt(3, info.outset);
    let f4 = wire::varint_field_opt(4, info.shred_version as u64);
    let f5 = wire::varint_field_opt(5, info.version_major as u64);
    let f6 = wire::varint_field_opt(6, info.version_minor as u64);
    let f7 = wire::varint_field_opt(7, info.version_patch as u64);
    let f8 = wire::varint_field_opt(8, info.version_commit as u64);
    let f9 = wire::varint_field_opt(9, info.version_feature_set as u64);
    let f10 = wire::varint_field_opt(10, info.version_client_id as u64);
    assert(info.pubkey@.len() <= f1.len());
    lemma_bytes(l, vs, 1, info.pubkey@);
    lemma_number(l, vs, 2, info.wallclock);
    lemma_number(l, vs, 3, info.outset);
    lemma_number(l, vs, 4, info.shred_version as u64);
    lemma_number(l, vs, 5, info.version_major as u64);
    lemma_number(l, vs, 6, info.version_minor as u64);
    lemma_number(l, vs, 7, info.version_patch as u64);
    lemma_number(l, vs, 8, info.version_commit as u64);
    lemma_number(l, vs, 9, info.version_feature_set as u64);
    lemma_number(l, vs, 10, info.version_client_id as u64);
    lemma_both(l, vs, 0, f1, 1, f2, 2);
    lemma_both(l, vs, 0, f1 + f2, 2, f3, 3);
    lemma_both(l, vs, 0, f1 + f2 + f3, 3, f4, 4);
    lemma_both(l, vs, 0, f1 + f2 + f3 + f4, 4, f5, 5);
    lemma_both(l, vs, 0, f1 + f2 + f3 + f4 + f5, 5, f6, 6);
    lemma_both(l, vs, 0, f1 + f2 + f3 + f4 + f5 + f6, 6, f7, 7);
    lemma_both(l, vs, 0, f1 + f2 + f3 + f4 + f5 + f6 + f7, 7, f8, 8);
    lemma_both(l, vs, 0, f1 + f2 + f3 + f4 + f5 + f6 + f7 + f8, 8, f9, 9);
    lemma_both(l, vs, 0, f1 + f2 + f3 + f4 + f5 + f6 + f7 + f8 + f9, 9, f10, 10);
}

proof fn lemma_contact_sockets(info: ReplicaContactInfo)
    requires
        plugin::contact_sockets(info).len() <= u64::MAX,
    ensures
        fills(Layout::ContactInfo, contact_values(info), 10, plugin::contact_sockets(info), 22),
{
    let l = Layout::ContactInfo;
    let vs = contact_values(info);
    let s11 = plugin::socket_field(11, geyser::text_opt(info.gossip));
    let s12 = plugin::socket_field(12, geyser::text_opt(info.tpu_quic));
    let s13 = plugin::socket_field(13, geyser::text_opt(info.tpu_forwards_quic));
    let s14 = plugin::socket_field(14, geyser::text_opt(info.tpu_vote_udp));
    let s15 = plugin::socket_field(15, geyser::text_opt(info.tpu_vote_quic));
    let s16 = plugin::socket_field(16, geyser::text_opt(info.tvu_udp));
    let s17 = plugin::socket_field(17, geyser::text_opt(info.tvu_quic));
    let s18 = plugin::socket_field(18, geyser::text_opt(info.serve_repair_udp));
    let s19 = plugin::socket_field(19, geyser::text_opt(info.serve_repair_quic));
    let s20 = plugin::socket_field(20, geyser::text_opt(info.rpc));
    let s21 = plugin::socket_field(21, geyser::text_opt(info.rpc_pubsub));
    let s22 = plugin::socket_field(22, geyser::text_opt(info.alpenglow));
    lemma_socket(l, vs, 11, geyser::text_opt(info.gossip));
    lemma_socket(l, vs, 12, geyser::text_opt(info.tpu_quic));
    lemma_socket(l, vs, 13, geyser::text_opt(info.tpu_forwards_quic));
    lemma_socket(l, vs, 14, geyser::text_opt(info.tpu_vote_udp));
    lemma_socket(l, vs, 15, geyser::text_opt(info.tpu_vote_quic));
    lemma_socket(l, vs, 16, geyser::text_opt(info.tvu_udp));
    lemma_socket(l, vs, 17, geyser::text_opt(info.tvu_quic));
    lemma_socket(l, vs, 18, geyser::text_opt(info.serve_repair_udp));
    lemma_socket(l, vs, 19, geyser::text_opt(info.serve_repair_quic));
    lemma_socket(l, vs, 20, geyser::text_opt(info.rpc));
    lemma_socket(l, vs, 21, geyser::text_opt(info.rpc_pubsub));
    lemma_socket(l, vs, 22, geyser::text_opt(info.alpenglow));
    lemma_both(l, vs, 10, s11, 11, s12, 12);
    lemma_both(l, vs, 10, s11 + s12, 12, s13, 13);
    lemma_both(l, vs, 10, s11 + s12 + s13, 13, s14, 14);
    lemma_both(l, vs, 10, s11 + s12 + s13 + s14, 14, s15, 15);
    lemma_both(l, vs, 10, s11 + s12 + s13 + s14 + s15, 15, s16, 16);
    lemma_both(l, vs, 10, s11 + s12 + s13 + s14 + s15 + s16, 16, s17, 17);
    lemma_both(l, vs, 10, s11 + s12 + s13 + s14 + s15 + s16 + s17, 17, s18, 18);
    lemma_both(l, vs, 10, s11 + s12 + s13 + s14 + s15 + s16 + s17 + s18, 18, s19, 19);
    lemma_both(l, vs, 10, s11 + s12 + s13 + s14 + s15 + s16 + s17 + s18 + s19, 19, s20, 20);
    lemma_both(l, vs, 10, s11 + s12 + s13 + s14 + s15 + s16 + s17 + s18 + s19 + s20, 20, s21, 21);
    lemma_both(l, vs, 10, s11 + s12 + s13 + s14 + s15 + s16 + s17 + s18 + s19 + s20 + s21, 21, s22, 22);
}

/// What an update says of a node.
pub open spec fn node_told(info: ReplicaContactInfo) -> NodeView {
    NodeView {
        pubkey: info.pubkey@,
        wallclock: info.wallclock,
        outset: info.outset,
        shred_version: info.shred_version as u32,
        version_major: info.version_major as u32,
        version_minor: info.version_minor as u32,
        version_patch: info.version_patch as u32,
        version_commit: info.version_commit as u32,
        version_feature_set: info.version_feature_set as u32,
        version_client_id: info.version_client_id as u32,
        gossip: geyser::text_opt(info.gossip),
        tpu_quic: geyser::text_opt(info.tpu_quic),
        tpu_forwards_quic: geyser::text_opt(info.tpu_forwards_quic),
        tpu_vote_udp: geyser::text_opt(info.tpu_vote_udp),
        tpu_vote_quic: geyser::text_opt(info.tpu_vote_quic),
        tvu_udp: geyser::text_opt(info.tvu_udp),
        tvu_quic: geyser::text_opt(info.tvu_quic),
        serve_repair_udp: geyser::text_opt(info.serve_repair_udp),
        serve_repair_quic: geyser::text_opt(info.serve_repair_quic),
        rpc: geyser::text_opt(info.rpc),
        rpc_pubsub: geyser::text_opt(info.rpc_pubsub),
        alpenglow: geyser::text_opt(info.alpenglow),
    }
}

/// A node that a validator tells of is read back.
#[verifier::rlimit(30)]
#[verifier::spinoff_prover]
proof fn lemma_contact_info(info: ReplicaContactInfo)
    requires
        (plugin::contact_numbers(info) + plugin::contact_sockets(info)).len() <= u64::MAX,
    ensures
        richat::richat_update(101, plugin::contact_numbers(info) + plugin::contact_sockets(info))
            == Some(RichatView::ContactInfo(node_told(info))),
{
    let l = Layout::ContactInfo;
    let vs = contact_values(info);
    let s = plugin::contact_numbers(info) + plugin::contact_sockets(info);
    lemma_contact_numbers(info);
    lemma_contact_sockets(info);
    lemma_both(l, vs, 0, plugin::contact_numbers(info), 10, plugin::contact_sockets(info), 22);
    lemma_all(l, vs, s);
    let m = PlainView { layout: l, values: vs };
    assert(richat::node_of(m) == node_told(info));
}

/// What an update says of a block footer.
pub open spec fn footer_told(slot: Slot, bank_id: BankId, view: BlockFooterView) -> FooterView {
    FooterView {
        slot,
        bank_id,
        version: view.version,
        bank_hash: view.bank_hash@,
        block_producer_time_nanos: view.block_producer_time_nanos,
        block_user_agent: view.block_user_agent@,
        footer: view.footer@,
    }
}

/// A block footer that a validator tells of is read back.
proof fn lemma_block_footer(slot: Slot, bank_id: BankId, view: BlockFooterView)
    requires
        plugin::footer_bytes(slot, bank_id, view).len() <= u64::MAX,
    ensures
        richat::richat_update(103, plugin::footer_bytes(slot, bank_id, view)) == Some(
            RichatView::BlockFooter(footer_told(slot, bank_id, view)),
        ),
{
    let l = Layout::BlockFooter;
    let vs = seq![
        ValueView::Number(slot),
        ValueView::Number(bank_id),
        ValueView::Number(view.version as u64),
        ValueView::Bytes(view.bank_hash@),
        ValueView::Number(view.block_producer_time_nanos),
        ValueView::Bytes(view.block_user_agent@),
        ValueView::Bytes(view.footer@),
    ];
    let f1 = wire::varint_field_opt(1, slot);
    let f2 = wire::varint_field_opt(2, bank_id);
    let f3 = wire::varint_field_opt(3, view.version as u64);
    let f4 = wire::bytes_field(4, view.bank_hash@);
    let f5 = wire::varint_field_opt(5, view.block_producer_time_nanos);
    let f6 = wire::bytes_field_opt(6, view.block_user_agent@);
    let f7 = wire::bytes_field_opt(7, view.footer@);
    assert(view.block_user_agent@.len() <= f6.len());
    assert(view.footer@.len() <= f7.len());
    lemma_number(l, vs, 1, slot);
    lemma_number(l, vs, 2, bank_id);
    lemma_number(l, vs, 3, view.version as u64);
    lemma_bytes(l, vs, 4, view.bank_hash@);
    lemma_number(l, vs, 5, view.block_producer_time_nanos);
    lemma_bytes(l, vs, 6, view.block_user_agent@);
    lemma_bytes(l, vs, 7, view.footer@);
    lemma_both(l, vs, 0, f1, 1, f2, 2);
    lemma_both(l, vs, 0, f1 + f2, 2, f3, 3);
    lemma_both(l, vs, 0, f1 + f2 + f3, 3, f4, 4);
    lemma_both(l, vs, 0, f1 + f2 + f3 + f4, 4, f5, 5);
    lemma_both(l, vs, 0, f1 + f2 + f3 + f4 + f5, 5, f6, 6);
    lemma_both(l, vs, 0, f1 + f2 + f3 + f4 + f5 + f6, 6, f7, 7);
    lemma_all(l, vs, plugin::footer_bytes(slot, bank_id, view));
    let m = PlainView { layout: l, values: vs };
    assert(richat::footer_of(m) == footer_told(slot, bank_id, view));
}

/// A change of a parent that a validator tells of is read back.
proof fn lemma_update_parent(tag: u32, slot: Slot, second: u64, parent_slot: Slot, id: Seq<u8>)
    requires
        104 <= tag <= 105,
        id.len() <= u64::MAX,
    ensures
        richat::richat_update(tag, plugin::update_parent_bytes(slot, second, parent_slot, id))
            == Some(
            if tag == 104 {
                RichatView::EntryUpdateParent {
                    slot,
                    cleared_bank_id: second,
                    parent_slot,
                    parent_block_id: id,
                }
            } else {
                RichatView::DeshredUpdateParent {
                    slot,
                    update_parent_fec_set_index: second as u32,
                    parent_slot,
                    parent_block_id: id,
                }
            },
        ),
{
    let l = Layout::UpdateParent;
    let vs = seq![
        ValueView::Number(slot),
        ValueView::Number(second),
        ValueView::Number(parent_slot),
        ValueView::Bytes(id),
    ];
    let f1 = wire::varint_field_opt(1, slot);
    let f2 = wire::varint_field_opt(2, second);
    let f3 = wire::varint_field_opt(3, parent_slot);
    let f4 = wire::bytes_field(4, id);
    lemma_number(l, vs, 1, slot);
    lemma_number(l, vs, 2, second);
    lemma_number(l, vs, 3, parent_slot);
    lemma_bytes(l, vs, 4, id);
    lemma_both(l, vs, 0, f1, 1, f2, 2);
    lemma_both(l, vs, 0, f1 + f2, 2, f3, 3);
    lemma_both(l, vs, 0, f1 + f2 + f3, 3, f4, 4);
    lemma_all(l, vs, plugin::update_parent_bytes(slot, second, parent_slot, id));
}

/// A node that is gone, as a validator tells of it, is read back.
proof fn lemma_contact_info_removed(pubkey: Seq<u8>)
    requires
        pubkey.len() <= u64::MAX,
    ensures
        richat::richat_update(102, wire::bytes_field_opt(1, pubkey)) == Some(
            RichatView::ContactInfoRemoved { pubkey },
        ),
{
    let l = Layout::ContactInfoRemoved;
    let vs = seq![ValueView::Bytes(pubkey)];
    lemma_bytes(l, vs, 1, pubkey);
    lemma_all(l, vs, wire::bytes_field_opt(1, pubkey));
}

/// What an update says of what a validator tells of beyond the stream.
pub open spec fn told(m: &ProtobufMessage) -> Option<RichatView> {
    match m {
        ProtobufMessage::DeshredTransaction { slot, transaction } => Some(
            RichatView::DeshredTransaction(richat::deshred_told(**transaction, *slot)),
        ),
        ProtobufMessage::ContactInfo { info } => Some(RichatView::ContactInfo(node_told(**info))),
        ProtobufMessage::ContactInfoRemoved { pubkey } => Some(
            RichatView::ContactInfoRemoved { pubkey: pubkey@ },
        ),
        ProtobufMessage::BlockFooter { slot, bank_id, block_footer } => Some(
            RichatView::BlockFooter(footer_told(*slot, *bank_id, **block_footer)),
        ),
        ProtobufMessage::EntryUpdateParent { info } => Some(
            RichatView::EntryUpdateParent {
                slot: info.slot,
                cleared_bank_id: info.cleared_bank_id,
                parent_slot: info.parent_slot,
                parent_block_id: info.parent_block_id@,
            },
        ),
        ProtobufMessage::DeshredUpdateParent { info } => Some(
            RichatView::DeshredUpdateParent {
                slot: info.slot,
                update_parent_fec_set_index: info.update_parent_fec_set_index,
                parent_slot: info.parent_slot,
                parent_block_id: info.parent_block_id@,
            },
        ),
        _ => None,
    }
}

/// Whether a transaction before replay, if it is one, is given as it was decoded.
pub open spec fn decodable(m: &ProtobufMessage) -> bool {
    m matches ProtobufMessage::DeshredTransaction { transaction, .. } ==> richat::decoded_body(
        transaction.transaction@,
    )
}

/// What a validator tells of beyond the stream is read back, with its time. Transactions before replay
/// are where the decoder of these takes them for what they are.
pub proof fn law_told_round_trip(m: &ProtobufMessage, created_at: Timestamp)
    requires
        m.tag() >= 100,
        m is DeshredTransaction ==> richat::richat_update(100, m.payload()) == told(m),
        m.payload().len() <= u64::MAX,
    ensures
        richat::richat_envelope(m.encoded(created_at)) == Ok::<RichatModel, Failure>(
            RichatModel { update: Some((m.tag(), m.payload())), created_at: Some(created_at) },
        ),
        told(m) is Some,
        richat::richat_update(m.tag(), m.payload()) == told(m),
{
    match m {
        ProtobufMessage::ContactInfo { info } => {
            lemma_contact_info(**info);
        },
        ProtobufMessage::ContactInfoRemoved { pubkey } => {
            assert(pubkey@.len() <= wire::bytes_field_opt(1, pubkey@).len());
            lemma_contact_info_removed(pubkey@);
        },
        ProtobufMessage::BlockFooter { slot, bank_id, block_footer } => {
            lemma_block_footer(*slot, *bank_id, **block_footer);
        },
        ProtobufMessage::EntryUpdateParent { info } => {
            lemma_update_parent(
                104,
                info.slot,
                info.cleared_bank_id,
                info.parent_slot,
                info.parent_block_id@,
            );
        },
        ProtobufMessage::DeshredUpdateParent { info } => {
            lemma_update_parent(
                105,
                info.slot,
                info.update_parent_fec_set_index as u64,
                info.parent_slot,
                info.parent_block_id@,
            );
        },
        _ => {},
    }
    round_trip::law_update_bytes(m.tag(), m.payload(), created_at);
    round_trip::law_other_update_is_skipped(m.tag(), m.payload(), created_at);
}

/// What a validator tells of beyond the stream is no message for either parser: the limited one says
/// what it is, and the other, which finds no update in it, says the same. Of transactions before
/// replay, the latter holds where they are taken for such.
pub proof fn law_told_is_skipped(m: &ProtobufMessage, created_at: Timestamp)
    requires
        m.tag() >= 100,
        m is DeshredTransaction ==> richat::prost_deshred_transaction(m.payload()) is Some,
        m.payload().len() <= u64::MAX,
    ensures
        message::limited_message(m.encoded(created_at)) == Err::<MessageView, ParseFailure>(
            ParseFailure::InvalidUpdateMessage("Richat"),
        ),
        parser::no_update(m.encoded(created_at)) == ParseFailure::InvalidUpdateMessage("Richat"),
{
    round_trip::law_update_bytes(m.tag(), m.payload(), created_at);
    round_trip::law_other_update_is_no_message(m.tag(), m.payload(), created_at);
    if m.tag() > 100 {
        law_told_round_trip(m, created_at);
    }
    round_trip::law_other_update_is_skipped(m.tag(), m.payload(), created_at);
}

} // verus!
