//! Updates that are none of the stream of other Geyser plugins, decoded.
use prost::Message;
use vstd::prelude::*;
use yellowstone_grpc_proto::geyser as proto;

use crate::codec;
use crate::codec::Timestamp;
use crate::decode;
use crate::encode;
use crate::error;
use crate::error::{DecodeErrorKind, Failure, WireError};
use crate::fields;
use crate::fields::{FieldStep, Merge};
use crate::geyser;
use crate::message;
use crate::plugin;
use crate::plugin::ReplicaDeshredTransactionInfo;
use crate::wire;
use crate::wire::WireType;

verus! {

/// What the value of a field is.
#[derive(Debug, Clone, Copy, PartialEq, Eq, Structural)]
pub enum FieldKind {
    /// A varint.
    Number,
    /// Bytes with a length prefix.
    Bytes,
    /// Text with a length prefix.
    Text,
    /// A field that is not looked at.
    Unknown,
}

/// The value of a field.
#[derive(Debug)]
pub enum FieldValue {
    Number(u64),
    Bytes(Vec<u8>),
    /// A text that may be missing.
    Text(Option<String>),
}

/// What the value of a field is.
pub ghost enum ValueView {
    Number(u64),
    Bytes(Seq<u8>),
    Text(Option<Seq<char>>),
}

impl View for FieldValue {
    type V = ValueView;

    open spec fn view(&self) -> ValueView {
        match self {
            FieldValue::Number(number) => ValueView::Number(*number),
            FieldValue::Bytes(bytes) => ValueView::Bytes(bytes@),
            FieldValue::Text(text) => ValueView::Text(geyser::text_opt(*text)),
        }
    }
}

/// Which fields a message has. Their tags count from 1.
#[derive(Debug, Clone, Copy, PartialEq, Eq, Structural)]
pub enum Layout {
    /// A node.
    ContactInfo,
    /// A node that is gone.
    ContactInfoRemoved,
    /// A block footer.
    BlockFooter,
    /// A block that got another parent.
    UpdateParent,
}

impl Layout {
    /// How many fields there are.
    pub open spec fn count(self) -> nat {
        match self {
            Layout::ContactInfo => 22,
            Layout::ContactInfoRemoved => 1,
            Layout::BlockFooter => 7,
            Layout::UpdateParent => 4,
        }
    }

    /// What the field with the tag is.
    pub open spec fn kind(self, tag: u32) -> FieldKind {
        match self {
            Layout::ContactInfo => if tag == 1 {
                FieldKind::Bytes
            } else if 2 <= tag <= 10 {
                FieldKind::Number
            } else if 11 <= tag <= 22 {
                FieldKind::Text
            } else {
                FieldKind::Unknown
            },
            Layout::ContactInfoRemoved => if tag == 1 {
                FieldKind::Bytes
            } else {
                FieldKind::Unknown
            },
            Layout::BlockFooter => if 1 <= tag <= 3 || tag == 5 {
                FieldKind::Number
            } else if tag == 4 || tag == 6 || tag == 7 {
                FieldKind::Bytes
            } else {
                FieldKind::Unknown
            },
            Layout::UpdateParent => if 1 <= tag <= 3 {
                FieldKind::Number
            } else if tag == 4 {
                FieldKind::Bytes
            } else {
                FieldKind::Unknown
            },
        }
    }

    /// How many fields there are.
    pub fn len(&self) -> (r: u32)
        ensures
            r == self.count(),
    {
        match self {
            Layout::ContactInfo => 22,
            Layout::ContactInfoRemoved => 1,
            Layout::BlockFooter => 7,
            Layout::UpdateParent => 4,
        }
    }

    /// What the field with the tag is.
    pub fn kind_of(&self, tag: u32) -> (r: FieldKind)
        ensures
            r == self.kind(tag),
    {
        match self {
            Layout::ContactInfo => if tag == 1 {
                FieldKind::Bytes
            } else if 2 <= tag && tag <= 10 {
                FieldKind::Number
            } else if 11 <= tag && tag <= 22 {
                FieldKind::Text
            } else {
                FieldKind::Unknown
            },
            Layout::ContactInfoRemoved => if tag == 1 {
                FieldKind::Bytes
            } else {
                FieldKind::Unknown
            },
            Layout::BlockFooter => if 1 <= tag && tag <= 3 || tag == 5 {
                FieldKind::Number
            } else if tag == 4 || tag == 6 || tag == 7 {
                FieldKind::Bytes
            } else {
                FieldKind::Unknown
            },
            Layout::UpdateParent => if 1 <= tag && tag <= 3 {
                FieldKind::Number
            } else if tag == 4 {
                FieldKind::Bytes
            } else {
                FieldKind::Unknown
            },
        }
    }
}

/// The bytes are no such message.
pub open spec fn malformed() -> Failure {
    error::failure(DecodeErrorKind::InvalidMessage)
}

/// The error for bytes that are no such message.
fn malformed_error() -> (r: WireError)
    ensures
        r@ == malformed(),
{
    error::create_decode_error(DecodeErrorKind::InvalidMessage)
}

/// The value of a field of the kind, and its length. A field that is not looked at has none.
pub open spec fn plain_value(kind: FieldKind, wire_type: WireType, tag: u32, rest: Seq<u8>) -> Result<
    (Option<ValueView>, nat),
    Failure,
> {
    match kind {
        FieldKind::Number => match wire::varint(rest) {
            Some((v, n)) => if wire_type == WireType::Varint {
                Ok((Some(ValueView::Number(v)), n))
            } else {
                Err(malformed())
            },
            None => Err(malformed()),
        },
        FieldKind::Bytes => match decode::delimited_at(rest, 0) {
            Ok((sp, n)) => if wire_type == WireType::LengthDelimited {
                Ok((Some(ValueView::Bytes(rest.subrange(sp.start as int, sp.end as int))), n))
            } else {
                Err(malformed())
            },
            Err(_) => Err(malformed()),
        },
        FieldKind::Text => match decode::delimited_at(rest, 0) {
            Ok((sp, n)) => {
                let bytes = rest.subrange(sp.start as int, sp.end as int);
                if wire_type == WireType::LengthDelimited && vstd::utf8::valid_utf8(bytes) {
                    Ok((Some(ValueView::Text(Some(vstd::utf8::decode_utf8(bytes)))), n))
                } else {
                    Err(malformed())
                }
            },
            Err(_) => Err(malformed()),
        },
        FieldKind::Unknown => match decode::skipped(wire_type, tag, rest) {
            Ok(n) => Ok((None, n)),
            Err(_) => Err(malformed()),
        },
    }
}

/// Takes the value of a field of the kind.
fn take_plain(kind: FieldKind, wire_type: WireType, tag: u32, buf: &mut &[u8]) -> (r: Result<
    Option<FieldValue>,
    WireError,
>)
    ensures
        match plain_value(kind, wire_type, tag, old(buf)@) {
            Ok((value, n)) => {
                &&& r is Ok
                &&& final(buf)@ == old(buf)@.skip(n as int)
                &&& value == match r->Ok_0 {
                    Some(v) => Some(v@),
                    None => None,
                }
            },
            Err(e) => r is Err && r->Err_0@ == e,
        },
{
    let whole: &[u8] = *buf;
    proof {
        decode::lemma_value_bounds(wire_type, tag, whole@, 0);
    }
    match kind {
        FieldKind::Number => if wire_type == WireType::Varint {
            match codec::decode_varint(buf) {
                Ok(number) => Ok(Some(FieldValue::Number(number))),
                Err(_) => Err(malformed_error()),
            }
        } else {
            Err(malformed_error())
        },
        FieldKind::Bytes => if wire_type == WireType::LengthDelimited {
            match decode::take_span(buf, whole.len()) {
                Ok(range) => Ok(
                    Some(
                        FieldValue::Bytes(
                            vstd::slice::slice_to_vec(
                                vstd::slice::slice_subrange(whole, range.start, range.end),
                            ),
                        ),
                    ),
                ),
                Err(_) => Err(malformed_error()),
            }
        } else {
            Err(malformed_error())
        },
        FieldKind::Text => if wire_type == WireType::LengthDelimited {
            match decode::take_span(buf, whole.len()) {
                Ok(range) => match message::text_of(
                    vstd::slice::slice_subrange(whole, range.start, range.end),
                ) {
                    Some(text) => {
                        proof {
                            vstd::utf8::encode_utf8_decode_utf8(text@);
                        }
                        Ok(Some(FieldValue::Text(Some(text.to_owned()))))
                    },
                    None => Err(malformed_error()),
                },
                Err(_) => Err(malformed_error()),
            }
        } else {
            Err(malformed_error())
        },
        FieldKind::Unknown => match decode::skip(wire_type, tag, buf) {
            Ok(()) => Ok(None),
            Err(_) => Err(malformed_error()),
        },
    }
}

/// What a message of one of the layouts holds: the value of each of its fields.
pub ghost struct PlainView {
    pub layout: Layout,
    pub values: Seq<ValueView>,
}

/// The value of a field that is missing.
pub open spec fn missing(kind: FieldKind) -> ValueView {
    match kind {
        FieldKind::Bytes => ValueView::Bytes(Seq::empty()),
        FieldKind::Text => ValueView::Text(None),
        _ => ValueView::Number(0),
    }
}

/// The message without any field.
pub open spec fn plain_empty(layout: Layout) -> PlainView {
    PlainView {
        layout,
        values: Seq::new(layout.count(), |i: int| missing(layout.kind((i + 1) as u32))),
    }
}

impl PlainView {
    /// The message with the value for the field with the tag.
    pub open spec fn with(self, tag: u32, value: Option<ValueView>) -> PlainView {
        match value {
            Some(v) => if 1 <= tag <= self.values.len() {
                PlainView { layout: self.layout, values: self.values.update(tag - 1, v) }
            } else {
                self
            },
            None => self,
        }
    }

    /// The number of the field.
    pub open spec fn number(self, tag: u32) -> u64 {
        if 1 <= tag <= self.values.len() && self.values[tag - 1] is Number {
            self.values[tag - 1]->Number_0
        } else {
            0
        }
    }

    /// The bytes of the field.
    pub open spec fn bytes(self, tag: u32) -> Seq<u8> {
        if 1 <= tag <= self.values.len() && self.values[tag - 1] is Bytes {
            self.values[tag - 1]->Bytes_0
        } else {
            Seq::empty()
        }
    }

    /// The text of the field, where there is one.
    pub open spec fn text(self, tag: u32) -> Option<Seq<char>> {
        if 1 <= tag <= self.values.len() && self.values[tag - 1] is Text {
            self.values[tag - 1]->Text_0
        } else {
            None
        }
    }
}

/// A message of one of the layouts.
#[derive(Debug)]
pub struct PlainMessage {
    pub layout: Layout,
    pub values: Vec<FieldValue>,
}

impl View for PlainMessage {
    type V = PlainView;

    open spec fn view(&self) -> PlainView {
        PlainView { layout: self.layout, values: self.values@.map_values(|v: FieldValue| v@) }
    }
}

impl FieldStep for PlainMessage {
    type M = PlainView;

    open spec fn step(
        m: PlainView,
        tag: u32,
        wire_type: WireType,
        rest: Seq<u8>,
        at: nat,
    ) -> Result<(PlainView, nat), Failure> {
        match plain_value(m.layout.kind(tag), wire_type, tag, rest) {
            Ok((value, n)) => Ok((m.with(tag, value), n)),
            Err(e) => Err(e),
        }
    }

    proof fn lemma_step_bounds(
        m: PlainView,
        tag: u32,
        wire_type: WireType,
        rest: Seq<u8>,
        at: nat,
    ) {
        decode::lemma_value_bounds(wire_type, tag, rest, 0);
    }
}

impl Merge for PlainMessage {
    type Target = PlainMessage;

    open spec fn model(target: &PlainMessage) -> PlainView {
        target@
    }

    fn merge_field(
        target: &mut PlainMessage,
        tag: u32,
        wire_type: WireType,
        buf: &mut &[u8],
        buf_len: usize,
    ) -> (r: Result<(), WireError>) {
        let ghost before = target@;
        match take_plain(target.layout.kind_of(tag), wire_type, tag, buf) {
            Ok(Some(value)) => {
                if 1 <= tag && (tag - 1) as usize <= usize::MAX - 1 && ((tag - 1) as usize)
                    < target.values.len() {
                    target.values.set((tag - 1) as usize, value);
                    assert(target@.values =~= before.values.update(tag - 1, value@));
                }
                assert(target@ == before.with(tag, Some(value@)));
                Ok(())
            },
            Ok(None) => Ok(()),
            Err(e) => Err(e),
        }
    }
}

impl PlainMessage {
    /// The message without any field.
    pub fn empty(layout: Layout) -> (r: PlainMessage)
        ensures
            r@ == plain_empty(layout),
    {
        let count: u32 = layout.len();
        let mut values: Vec<FieldValue> = Vec::new();
        let mut tag: u32 = 1;
        while tag <= count
            invariant
                1 <= tag <= count + 1,
                count == layout.count(),
                count <= 22,
                values@.len() == tag - 1,
                forall|i: int|
                    0 <= i < values@.len() ==> (#[trigger] values@[i])@ == missing(
                        layout.kind((i + 1) as u32),
                    ),
            decreases count + 1 - tag,
        {
            values.push(
                match layout.kind_of(tag) {
                    FieldKind::Bytes => FieldValue::Bytes(Vec::new()),
                    FieldKind::Text => FieldValue::Text(None),
                    _ => FieldValue::Number(0),
                },
            );
            assert(values@.last()@ == missing(layout.kind(tag)));
            tag = tag + 1;
        }
        let r = PlainMessage { layout, values };
        assert(r@.values =~= plain_empty(layout).values);
        r
    }

    /// Decodes a message of the layout.
    pub fn decode(layout: Layout, buf: &[u8]) -> (r: Result<PlainMessage, WireError>)
        ensures
            match fields::all_fields::<PlainMessage>(plain_empty(layout), buf@) {
                Ok(m) => r is Ok && r->Ok_0@ == m,
                Err(e) => r is Err && r->Err_0@ == e,
            },
    {
        let mut rest: &[u8] = buf;
        let mut message = PlainMessage::empty(layout);
        match fields::merge_loop::<PlainMessage>(&mut message, &mut rest, buf.len(), 0) {
            Ok(()) => Ok(message),
            Err(e) => Err(e),
        }
    }

    /// The number of the field.
    pub fn number(&self, tag: u32) -> (r: u64)
        requires
            1 <= tag <= 22,
        ensures
            r == self@.number(tag),
    {
        if ((tag - 1) as usize) < self.values.len() {
            match &self.values[(tag - 1) as usize] {
                FieldValue::Number(number) => *number,
                _ => 0,
            }
        } else {
            0
        }
    }

    /// The bytes of the field.
    pub fn bytes(&self, tag: u32) -> (r: Vec<u8>)
        requires
            1 <= tag <= 22,
        ensures
            r@ == self@.bytes(tag),
    {
        if ((tag - 1) as usize) < self.values.len() {
            match &self.values[(tag - 1) as usize] {
                FieldValue::Bytes(bytes) => vstd::slice::slice_to_vec(bytes.as_slice()),
                _ => Vec::new(),
            }
        } else {
            Vec::new()
        }
    }

    /// The text of the field, where there is one.
    pub fn text(&self, tag: u32) -> (r: Option<String>)
        requires
            1 <= tag <= 22,
        ensures
            geyser::text_opt(r) == self@.text(tag),
    {
        if ((tag - 1) as usize) < self.values.len() {
            match &self.values[(tag - 1) as usize] {
                FieldValue::Text(Some(text)) => Some(text.as_str().to_owned()),
                _ => None,
            }
        } else {
            None
        }
    }
}

// ---------------------------------------------------------------------------------------------
// The updates
// ---------------------------------------------------------------------------------------------

/// A node.
#[derive(Debug)]
pub struct SubscribeUpdateContactInfoNode {
    pub pubkey: Vec<u8>,
    pub wallclock: u64,
    pub outset: u64,
    pub shred_version: u32,
    pub version_major: u32,
    pub version_minor: u32,
    pub version_patch: u32,
    pub version_commit: u32,
    pub version_feature_set: u32,
    pub version_client_id: u32,
    pub gossip: Option<String>,
    pub tpu_quic: Option<String>,
    pub tpu_forwards_quic: Option<String>,
    pub tpu_vote_udp: Option<String>,
    pub tpu_vote_quic: Option<String>,
    pub tvu_udp: Option<String>,
    pub tvu_quic: Option<String>,
    pub serve_repair_udp: Option<String>,
    pub serve_repair_quic: Option<String>,
    pub rpc: Option<String>,
    pub rpc_pubsub: Option<String>,
    pub alpenglow: Option<String>,
}

/// What a node holds.
pub ghost struct NodeView {
    pub pubkey: Seq<u8>,
    pub wallclock: u64,
    pub outset: u64,
    pub shred_version: u32,
    pub version_major: u32,
    pub version_minor: u32,
    pub version_patch: u32,
    pub version_commit: u32,
    pub version_feature_set: u32,
    pub version_client_id: u32,
    pub gossip: Option<Seq<char>>,
    pub tpu_quic: Option<Seq<char>>,
    pub tpu_forwards_quic: Option<Seq<char>>,
    pub tpu_vote_udp: Option<Seq<char>>,
    pub tpu_vote_quic: Option<Seq<char>>,
    pub tvu_udp: Option<Seq<char>>,
    pub tvu_quic: Option<Seq<char>>,
    pub serve_repair_udp: Option<Seq<char>>,
    pub serve_repair_quic: Option<Seq<char>>,
    pub rpc: Option<Seq<char>>,
    pub rpc_pubsub: Option<Seq<char>>,
    pub alpenglow: Option<Seq<char>>,
}

impl View for SubscribeUpdateContactInfoNode {
    type V = NodeView;

    open spec fn view(&self) -> NodeView {
        NodeView {
            pubkey: self.pubkey@,
            wallclock: self.wallclock,
            outset: self.outset,
            shred_version: self.shred_version,
            version_major: self.version_major,
            version_minor: self.version_minor,
            version_patch: self.version_patch,
            version_commit: self.version_commit,
            version_feature_set: self.version_feature_set,
            version_client_id: self.version_client_id,
            gossip: geyser::text_opt(self.gossip),
            tpu_quic: geyser::text_opt(self.tpu_quic),
            tpu_forwards_quic: geyser::text_opt(self.tpu_forwards_quic),
            tpu_vote_udp: geyser::text_opt(self.tpu_vote_udp),
            tpu_vote_quic: geyser::text_opt(self.tpu_vote_quic),
            tvu_udp: geyser::text_opt(self.tvu_udp),
            tvu_quic: geyser::text_opt(self.tvu_quic),
            serve_repair_udp: geyser::text_opt(self.serve_repair_udp),
            serve_repair_quic: geyser::text_opt(self.serve_repair_quic),
            rpc: geyser::text_opt(self.rpc),
            rpc_pubsub: geyser::text_opt(self.rpc_pubsub),
            alpenglow: geyser::text_opt(self.alpenglow),
        }
    }
}

/// The node that the message is. Of a number that is too large, the low bits count.
pub open spec fn node_of(m: PlainView) -> NodeView {
    NodeView {
        pubkey: m.bytes(1),
        wallclock: m.number(2),
        outset: m.number(3),
        shred_version: m.number(4) as u32,
        version_major: m.number(5) as u32,
        version_minor: m.number(6) as u32,
        version_patch: m.number(7) as u32,
        version_commit: m.number(8) as u32,
        version_feature_set: m.number(9) as u32,
        version_client_id: m.number(10) as u32,
        gossip: m.text(11),
        tpu_quic: m.text(12),
        tpu_forwards_quic: m.text(13),
        tpu_vote_udp: m.text(14),
        tpu_vote_quic: m.text(15),
        tvu_udp: m.text(16),
        tvu_quic: m.text(17),
        serve_repair_udp: m.text(18),
        serve_repair_quic: m.text(19),
        rpc: m.text(20),
        rpc_pubsub: m.text(21),
        alpenglow: m.text(22),
    }
}

impl SubscribeUpdateContactInfoNode {
    /// The node that the message is.
    fn from_message(m: &PlainMessage) -> (r: Self)
        ensures
            r@ == node_of(m@),
    {
        SubscribeUpdateContactInfoNode {
            pubkey: m.bytes(1),
            wallclock: m.number(2),
            outset: m.number(3),
            shred_version: m.number(4) as u32,
            version_major: m.number(5) as u32,
            version_minor: m.number(6) as u32,
            version_patch: m.number(7) as u32,
            version_commit: m.number(8) as u32,
            version_feature_set: m.number(9) as u32,
            version_client_id: m.number(10) as u32,
            gossip: m.text(11),
            tpu_quic: m.text(12),
            tpu_forwards_quic: m.text(13),
            tpu_vote_udp: m.text(14),
            tpu_vote_quic: m.text(15),
            tvu_udp: m.text(16),
            tvu_quic: m.text(17),
            serve_repair_udp: m.text(18),
            serve_repair_quic: m.text(19),
            rpc: m.text(20),
            rpc_pubsub: m.text(21),
            alpenglow: m.text(22),
        }
    }
}

/// A block footer.
#[derive(Debug)]
pub struct SubscribeUpdateBlockFooter {
    pub slot: u64,
    pub bank_id: u64,
    pub version: u32,
    pub bank_hash: Vec<u8>,
    pub block_producer_time_nanos: u64,
    pub block_user_agent: Vec<u8>,
    /// The serialized footer.
    pub footer: Vec<u8>,
}

/// What a block footer holds.
pub ghost struct FooterView {
    pub slot: u64,
    pub bank_id: u64,
    pub version: u32,
    pub bank_hash: Seq<u8>,
    pub block_producer_time_nanos: u64,
    pub block_user_agent: Seq<u8>,
    pub footer: Seq<u8>,
}

impl View for SubscribeUpdateBlockFooter {
    type V = FooterView;

    open spec fn view(&self) -> FooterView {
        FooterView {
            slot: self.slot,
            bank_id: self.bank_id,
            version: self.version,
            bank_hash: self.bank_hash@,
            block_producer_time_nanos: self.block_producer_time_nanos,
            block_user_agent: self.block_user_agent@,
            footer: self.footer@,
        }
    }
}

/// The block footer that the message is. Of a version that is too large, the low bits count.
pub open spec fn footer_of(m: PlainView) -> FooterView {
    FooterView {
        slot: m.number(1),
        bank_id: m.number(2),
        version: m.number(3) as u32,
        bank_hash: m.bytes(4),
        block_producer_time_nanos: m.number(5),
        block_user_agent: m.bytes(6),
        footer: m.bytes(7),
    }
}

impl SubscribeUpdateBlockFooter {
    /// The block footer that the message is.
    fn from_message(m: &PlainMessage) -> (r: Self)
        ensures
            r@ == footer_of(m@),
    {
        SubscribeUpdateBlockFooter {
            slot: m.number(1),
            bank_id: m.number(2),
            version: m.number(3) as u32,
            bank_hash: m.bytes(4),
            block_producer_time_nanos: m.number(5),
            block_user_agent: m.bytes(6),
            footer: m.bytes(7),
        }
    }
}

/// A block that got another parent, as replay found out.
#[derive(Debug)]
pub struct SubscribeUpdateEntryUpdateParent {
    pub slot: u64,
    pub cleared_bank_id: u64,
    pub parent_slot: u64,
    pub parent_block_id: Vec<u8>,
}

/// A block that got another parent, as its shreds say.
#[derive(Debug)]
pub struct SubscribeUpdateDeshredUpdateParent {
    pub slot: u64,
    pub update_parent_fec_set_index: u32,
    pub parent_slot: u64,
    pub parent_block_id: Vec<u8>,
}

/// A transaction as its shreds have it. The transaction itself is kept encoded.
#[derive(Debug)]
pub struct SubscribeUpdateDeshredTransactionInfo {
    pub signature: Vec<u8>,
    pub is_vote: bool,
    pub transaction: Option<Vec<u8>>,
    pub loaded_writable_addresses: Vec<Vec<u8>>,
    pub loaded_readonly_addresses: Vec<Vec<u8>>,
    pub completed_data_set_starting_shred_index: u32,
    pub completed_data_set_ending_shred_index_exclusive: u32,
}

/// What a transaction holds, as its shreds have it.
pub ghost struct DeshredInfoView {
    pub signature: Seq<u8>,
    pub is_vote: bool,
    pub transaction: Option<Seq<u8>>,
    pub loaded_writable_addresses: Seq<Seq<u8>>,
    pub loaded_readonly_addresses: Seq<Seq<u8>>,
    pub completed_data_set_starting_shred_index: u32,
    pub completed_data_set_ending_shred_index_exclusive: u32,
}

impl View for SubscribeUpdateDeshredTransactionInfo {
    type V = DeshredInfoView;

    open spec fn view(&self) -> DeshredInfoView {
        DeshredInfoView {
            signature: self.signature@,
            is_vote: self.is_vote,
            transaction: geyser::bytes_opt(self.transaction),
            loaded_writable_addresses: geyser::bytes_each(self.loaded_writable_addresses@),
            loaded_readonly_addresses: geyser::bytes_each(self.loaded_readonly_addresses@),
            completed_data_set_starting_shred_index: self.completed_data_set_starting_shred_index,
            completed_data_set_ending_shred_index_exclusive:
                self.completed_data_set_ending_shred_index_exclusive,
        }
    }
}

/// The update of a transaction as its shreds have it.
#[derive(Debug)]
pub struct SubscribeUpdateDeshredTransaction {
    pub transaction: Option<SubscribeUpdateDeshredTransactionInfo>,
    pub slot: u64,
}

/// What the update of a transaction holds, as its shreds have it.
pub ghost struct DeshredView {
    pub transaction: Option<DeshredInfoView>,
    pub slot: u64,
}

impl View for SubscribeUpdateDeshredTransaction {
    type V = DeshredView;

    open spec fn view(&self) -> DeshredView {
        DeshredView {
            transaction: match self.transaction {
                Some(info) => Some(info@),
                None => None,
            },
            slot: self.slot,
        }
    }
}

/// What `SubscribeUpdateDeshredTransaction::decode` of `yellowstone-grpc-proto` makes of the bytes.
pub uninterp spec fn prost_deshred_transaction(bytes: Seq<u8>) -> Option<DeshredView>;

/// Whether the bytes are a transaction that was decoded, encoded again.
pub open spec fn decoded_body(bytes: Seq<u8>) -> bool {
    exists|data: Seq<u8>|
        (#[trigger] prost_deshred_transaction(data)) matches Some(
            DeshredView { transaction: Some(info), .. },
        ) && info.transaction == Some(bytes)
}

/// What an update says of a transaction before replay.
pub open spec fn deshred_told(tx: ReplicaDeshredTransactionInfo, slot: u64) -> DeshredView {
    let loaded = match tx.loaded_addresses {
        Some(loaded) => (
            geyser::bytes_each(loaded.writable@),
            geyser::bytes_each(loaded.readonly@),
        ),
        None => (Seq::empty(), Seq::empty()),
    };
    DeshredView {
        transaction: Some(
            DeshredInfoView {
                signature: tx.signature@,
                is_vote: tx.is_vote,
                transaction: Some(tx.transaction@),
                loaded_writable_addresses: loaded.0,
                loaded_readonly_addresses: loaded.1,
                completed_data_set_starting_shred_index: tx.completed_data_set_starting_shred_index,
                completed_data_set_ending_shred_index_exclusive:
                    tx.completed_data_set_ending_shred_index_exclusive,
            },
        ),
        slot,
    }
}

/// `SubscribeUpdateDeshredTransaction::decode` of `yellowstone-grpc-proto`: a transaction as its shreds
/// have it, the transaction itself encoded again, or an error. An encoded one is read back where the
/// transaction itself was decoded before. What becomes of other bytes is left to that crate.
#[verifier::external_body]
fn decode_deshred_transaction(buf: &[u8]) -> (r: Result<
    SubscribeUpdateDeshredTransaction,
    prost::DecodeError,
>)
    ensures
        match prost_deshred_transaction(buf@) {
            Some(m) => r is Ok && r->Ok_0@ == m,
            None => r is Err,
        },
        forall|tx: ReplicaDeshredTransactionInfo, slot: u64|
            decoded_body(tx.transaction@) && buf@ == #[trigger] plugin::deshred_bytes(tx, slot)
                ==> r is Ok && r->Ok_0@ == deshred_told(tx, slot),
{
    let m = proto::SubscribeUpdateDeshredTransaction::decode(buf)?;
    let transaction = m.transaction.map(|t| SubscribeUpdateDeshredTransactionInfo {
        signature: t.signature,
        is_vote: t.is_vote,
        transaction: t.transaction.map(|transaction| transaction.encode_to_vec()),
        loaded_writable_addresses: t.loaded_writable_addresses,
        loaded_readonly_addresses: t.loaded_readonly_addresses,
        completed_data_set_starting_shred_index: t.completed_data_set_starting_shred_index,
        completed_data_set_ending_shred_index_exclusive: t
            .completed_data_set_ending_shred_index_exclusive,
    });
    Ok(SubscribeUpdateDeshredTransaction { transaction, slot: m.slot })
}

/// An update that is none of the stream.
#[derive(Debug)]
pub enum UpdateOneofRichat {
    DeshredTransaction(SubscribeUpdateDeshredTransaction),
    ContactInfo(SubscribeUpdateContactInfoNode),
    ContactInfoRemoved { pubkey: Vec<u8> },
    BlockFooter(SubscribeUpdateBlockFooter),
    EntryUpdateParent(SubscribeUpdateEntryUpdateParent),
    DeshredUpdateParent(SubscribeUpdateDeshredUpdateParent),
}

/// What an update that is none of the stream holds.
pub ghost enum RichatView {
    DeshredTransaction(DeshredView),
    ContactInfo(NodeView),
    ContactInfoRemoved { pubkey: Seq<u8> },
    BlockFooter(FooterView),
    EntryUpdateParent { slot: u64, cleared_bank_id: u64, parent_slot: u64, parent_block_id: Seq<u8> },
    DeshredUpdateParent {
        slot: u64,
        update_parent_fec_set_index: u32,
        parent_slot: u64,
        parent_block_id: Seq<u8>,
    },
}

impl View for UpdateOneofRichat {
    type V = RichatView;

    open spec fn view(&self) -> RichatView {
        match self {
            UpdateOneofRichat::DeshredTransaction(m) => RichatView::DeshredTransaction(m@),
            UpdateOneofRichat::ContactInfo(m) => RichatView::ContactInfo(m@),
            UpdateOneofRichat::ContactInfoRemoved { pubkey } => RichatView::ContactInfoRemoved {
                pubkey: pubkey@,
            },
            UpdateOneofRichat::BlockFooter(m) => RichatView::BlockFooter(m@),
            UpdateOneofRichat::EntryUpdateParent(m) => RichatView::EntryUpdateParent {
                slot: m.slot,
                cleared_bank_id: m.cleared_bank_id,
                parent_slot: m.parent_slot,
                parent_block_id: m.parent_block_id@,
            },
            UpdateOneofRichat::DeshredUpdateParent(m) => RichatView::DeshredUpdateParent {
                slot: m.slot,
                update_parent_fec_set_index: m.update_parent_fec_set_index,
                parent_slot: m.parent_slot,
                parent_block_id: m.parent_block_id@,
            },
        }
    }
}

/// The layout of the update with the tag.
pub open spec fn layout_of(tag: u32) -> Layout {
    if tag == 101 {
        Layout::ContactInfo
    } else if tag == 102 {
        Layout::ContactInfoRemoved
    } else if tag == 103 {
        Layout::BlockFooter
    } else {
        Layout::UpdateParent
    }
}

/// The update with the tag that the message is.
pub open spec fn update_of(tag: u32, m: PlainView) -> RichatView {
    if tag == 101 {
        RichatView::ContactInfo(node_of(m))
    } else if tag == 102 {
        RichatView::ContactInfoRemoved { pubkey: m.bytes(1) }
    } else if tag == 103 {
        RichatView::BlockFooter(footer_of(m))
    } else if tag == 104 {
        RichatView::EntryUpdateParent {
            slot: m.number(1),
            cleared_bank_id: m.number(2),
            parent_slot: m.number(3),
            parent_block_id: m.bytes(4),
        }
    } else {
        RichatView::DeshredUpdateParent {
            slot: m.number(1),
            update_parent_fec_set_index: m.number(2) as u32,
            parent_slot: m.number(3),
            parent_block_id: m.bytes(4),
        }
    }
}

/// The update with the tag that the bytes are.
pub open spec fn richat_update(tag: u32, payload: Seq<u8>) -> Option<RichatView> {
    if tag == 100 {
        match prost_deshred_transaction(payload) {
            Some(m) => Some(RichatView::DeshredTransaction(m)),
            None => None,
        }
    } else {
        match fields::all_fields::<PlainMessage>(plain_empty(layout_of(tag)), payload) {
            Ok(m) => Some(update_of(tag, m)),
            Err(_) => None,
        }
    }
}

/// The update with the tag that the bytes are. A transaction before replay is read back where the
/// transaction itself was decoded before.
fn decode_payload(tag: u32, payload: &[u8]) -> (r: Option<UpdateOneofRichat>)
    ensures
        match richat_update(tag, payload@) {
            Some(m) => r is Some && r->Some_0@ == m,
            None => r is None,
        },
        forall|tx: ReplicaDeshredTransactionInfo, slot: u64|
            tag == 100 && decoded_body(tx.transaction@) && payload@
                == #[trigger] plugin::deshred_bytes(tx, slot) ==> richat_update(tag, payload@)
                == Some(RichatView::DeshredTransaction(deshred_told(tx, slot))),
{
    if tag == 100 {
        return match decode_deshred_transaction(payload) {
            Ok(m) => Some(UpdateOneofRichat::DeshredTransaction(m)),
            Err(_) => None,
        };
    }
    let layout = match tag {
        101 => Layout::ContactInfo,
        102 => Layout::ContactInfoRemoved,
        103 => Layout::BlockFooter,
        _ => Layout::UpdateParent,
    };
    let m = match PlainMessage::decode(layout, payload) {
        Ok(m) => m,
        Err(_) => return None,
    };
    Some(
        match tag {
            101 => UpdateOneofRichat::ContactInfo(SubscribeUpdateContactInfoNode::from_message(&m)),
            102 => UpdateOneofRichat::ContactInfoRemoved { pubkey: m.bytes(1) },
            103 => UpdateOneofRichat::BlockFooter(SubscribeUpdateBlockFooter::from_message(&m)),
            104 => UpdateOneofRichat::EntryUpdateParent(
                SubscribeUpdateEntryUpdateParent {
                    slot: m.number(1),
                    cleared_bank_id: m.number(2),
                    parent_slot: m.number(3),
                    parent_block_id: m.bytes(4),
                },
            ),
            _ => UpdateOneofRichat::DeshredUpdateParent(
                SubscribeUpdateDeshredUpdateParent {
                    slot: m.number(1),
                    update_parent_fec_set_index: m.number(2) as u32,
                    parent_slot: m.number(3),
                    parent_block_id: m.bytes(4),
                },
            ),
        },
    )
}

/// The fields of an envelope of updates that are none of the stream: the parts of updates, each with its
/// tag, and the time.
#[derive(Debug)]
pub struct RichatFields {
    pub parts: Vec<(u32, Vec<u8>)>,
    pub created_at: Option<Timestamp>,
}

/// What the fields of an envelope hold.
#[verifier::ext_equal]
pub ghost struct FieldsModel {
    pub parts: Seq<(u32, Seq<u8>)>,
    pub created_at: Option<Timestamp>,
}

impl View for RichatFields {
    type V = FieldsModel;

    open spec fn view(&self) -> FieldsModel {
        FieldsModel {
            parts: self.parts@.map_values(|part: (u32, Vec<u8>)| (part.0, part.1@)),
            created_at: self.created_at,
        }
    }
}

/// The envelope without any field.
pub open spec fn no_fields() -> FieldsModel {
    FieldsModel { parts: Seq::empty(), created_at: None }
}

/// The time that another one is merged into.
pub open spec fn time_so_far(created_at: Option<Timestamp>) -> Timestamp {
    match created_at {
        Some(ts) => ts,
        None => codec::timestamp_zero(),
    }
}

impl FieldStep for RichatFields {
    type M = FieldsModel;

    open spec fn step(
        m: FieldsModel,
        tag: u32,
        wire_type: WireType,
        rest: Seq<u8>,
        at: nat,
    ) -> Result<(FieldsModel, nat), Failure> {
        if tag == 11 {
            match codec::timestamp(time_so_far(m.created_at), rest) {
                Some((ts, n)) => if wire_type == WireType::LengthDelimited {
                    Ok((FieldsModel { parts: m.parts, created_at: Some(ts) }, n))
                } else {
                    Err(malformed())
                },
                None => Err(malformed()),
            }
        } else if 100 <= tag <= 105 {
            match decode::delimited_at(rest, 0) {
                Ok((sp, n)) => if wire_type == WireType::LengthDelimited {
                    Ok(
                        (
                            FieldsModel {
                                parts: m.parts.push(
                                    (tag, rest.subrange(sp.start as int, sp.end as int)),
                                ),
                                created_at: m.created_at,
                            },
                            n,
                        ),
                    )
                } else {
                    Err(malformed())
                },
                Err(_) => Err(malformed()),
            }
        } else {
            match plain_value(FieldKind::Unknown, wire_type, tag, rest) {
                Ok((_, n)) => Ok((m, n)),
                Err(e) => Err(e),
            }
        }
    }

    proof fn lemma_step_bounds(
        m: FieldsModel,
        tag: u32,
        wire_type: WireType,
        rest: Seq<u8>,
        at: nat,
    ) {
        decode::lemma_value_bounds(wire_type, tag, rest, 0);
        codec::lemma_timestamp_bounds(time_so_far(m.created_at), rest);
    }
}

impl Merge for RichatFields {
    type Target = RichatFields;

    open spec fn model(target: &RichatFields) -> FieldsModel {
        target@
    }

    fn merge_field(
        target: &mut RichatFields,
        tag: u32,
        wire_type: WireType,
        buf: &mut &[u8],
        buf_len: usize,
    ) -> (r: Result<(), WireError>) {
        let whole: &[u8] = *buf;
        proof {
            decode::lemma_value_bounds(wire_type, tag, whole@, 0);
        }
        if tag == 11 {
            if wire_type != WireType::LengthDelimited {
                return Err(malformed_error());
            }
            let so_far = match target.created_at {
                Some(ts) => ts,
                None => Timestamp { seconds: 0, nanos: 0 },
            };
            match codec::merge_timestamp(so_far, buf) {
                Ok(ts) => {
                    target.created_at = Some(ts);
                    Ok(())
                },
                Err(_) => Err(malformed_error()),
            }
        } else if 100 <= tag && tag <= 105 {
            if wire_type != WireType::LengthDelimited {
                return Err(malformed_error());
            }
            match decode::take_span(buf, whole.len()) {
                Ok(range) => {
                    let payload = vstd::slice::slice_subrange(whole, range.start, range.end);
                    let ghost before = target@;
                    target.parts.push((tag, vstd::slice::slice_to_vec(payload)));
                    assert(target@.parts =~= before.parts.push((tag, payload@)));
                    Ok(())
                },
                Err(_) => Err(malformed_error()),
            }
        } else {
            match take_plain(FieldKind::Unknown, wire_type, tag, buf) {
                Ok(_) => Ok(()),
                Err(e) => Err(e),
            }
        }
    }
}

impl decode::LimitedDecode for RichatFields {
    open spec fn empty() -> FieldsModel {
        no_fields()
    }

    fn default_message() -> (r: Self) {
        let r = RichatFields { parts: Vec::new(), created_at: None };
        assert(r@.parts =~= Seq::<(u32, Seq<u8>)>::empty());
        r
    }
}

/// An envelope of updates that are none of the stream: the tag and the bytes of the update, and the
/// time. The bytes of an update that comes in parts are those of its parts.
#[derive(Debug)]
pub struct SubscribeUpdateRichat {
    pub update: Option<(u32, Vec<u8>)>,
    pub created_at: Option<Timestamp>,
}

/// What an envelope of updates that are none of the stream holds.
pub ghost struct RichatModel {
    pub update: Option<(u32, Seq<u8>)>,
    pub created_at: Option<Timestamp>,
}

impl View for SubscribeUpdateRichat {
    type V = RichatModel;

    open spec fn view(&self) -> RichatModel {
        RichatModel {
            update: match self.update {
                Some((tag, payload)) => Some((tag, payload@)),
                None => None,
            },
            created_at: self.created_at,
        }
    }
}

/// The update after one more part: another one, where the tag is another.
pub open spec fn joined(update: Option<(u32, Seq<u8>)>, tag: u32, payload: Seq<u8>) -> (
    u32,
    Seq<u8>,
) {
    match update {
        Some((t, p)) => if t == tag {
            (t, p + payload)
        } else {
            (tag, payload)
        },
        None => (tag, payload),
    }
}

/// The update of all the parts, or that one of them is none.
pub open spec fn joined_all(parts: Seq<(u32, Seq<u8>)>) -> Result<Option<(u32, Seq<u8>)>, Failure>
    decreases parts.len(),
{
    if parts.len() == 0 {
        Ok(None)
    } else {
        match joined_all(parts.drop_last()) {
            Err(e) => Err(e),
            Ok(update) => {
                let (tag, payload) = parts.last();
                if richat_update(tag, payload) is Some {
                    Ok(Some(joined(update, tag, payload)))
                } else {
                    Err(malformed())
                }
            },
        }
    }
}

/// The fields of an envelope with one part.
pub open spec fn one_part(tag: u32, payload: Seq<u8>, created_at: Option<Timestamp>) -> Result<
    FieldsModel,
    Failure,
> {
    Ok(FieldsModel { parts: seq![(tag, payload)], created_at })
}

/// The envelope that the bytes are.
pub open spec fn richat_envelope(data: Seq<u8>) -> Result<RichatModel, Failure> {
    match fields::all_fields::<RichatFields>(no_fields(), data) {
        Err(e) => Err(e),
        Ok(m) => match joined_all(m.parts) {
            Ok(update) => Ok(RichatModel { update, created_at: m.created_at }),
            Err(e) => Err(e),
        },
    }
}

/// Where the first parts fail, all fail in the same way.
proof fn lemma_joined_failure(parts: Seq<(u32, Seq<u8>)>, i: int)
    requires
        0 <= i <= parts.len(),
        joined_all(parts.take(i)) is Err,
    ensures
        joined_all(parts) == joined_all(parts.take(i)),
    decreases parts.len() - i,
{
    if i < parts.len() {
        assert(parts.take(i + 1).drop_last() =~= parts.take(i));
        lemma_joined_failure(parts, i + 1);
    } else {
        assert(parts.take(i) =~= parts);
    }
}

impl SubscribeUpdateRichat {
    /// Decodes an envelope. Each part of its update is one by itself. A transaction before replay is read
    /// back where the transaction itself was decoded before.
    #[verifier::rlimit(30)]
    #[verifier::spinoff_prover]
    pub fn decode(data: &[u8]) -> (r: Result<SubscribeUpdateRichat, WireError>)
        ensures
            match richat_envelope(data@) {
                Ok(m) => r is Ok && r->Ok_0@ == m,
                Err(e) => r is Err && r->Err_0@ == e,
            },
            forall|tx: ReplicaDeshredTransactionInfo, slot: u64, created_at: Option<Timestamp>|
                decoded_body(tx.transaction@) && fields::all_fields::<RichatFields>(
                    no_fields(),
                    data@,
                ) == #[trigger] one_part(100, plugin::deshred_bytes(tx, slot), created_at)
                    ==> richat_update(100, plugin::deshred_bytes(tx, slot)) == Some(
                    RichatView::DeshredTransaction(deshred_told(tx, slot)),
                ),
    {
        let fields = match <RichatFields as decode::LimitedDecode>::decode(data) {
            Ok(fields) => fields,
            Err(e) => return Err(e),
        };
        let ghost all = fields@.parts;
        let mut envelope = SubscribeUpdateRichat { update: None, created_at: fields.created_at };
        let mut i: usize = 0;
        assert(all.take(0) =~= Seq::<(u32, Seq<u8>)>::empty());
        while i < fields.parts.len()
            invariant
                i <= fields.parts@.len(),
                all == fields@.parts,
                all.len() == fields.parts@.len(),
                fields::all_fields::<RichatFields>(no_fields(), data@) == Ok::<
                    FieldsModel,
                    Failure,
                >(fields@),
                envelope.created_at == fields.created_at,
                joined_all(all.take(i as int)) == Ok::<Option<(u32, Seq<u8>)>, Failure>(
                    envelope@.update,
                ),
                i > 0 ==> forall|tx: ReplicaDeshredTransactionInfo, slot: u64|
                    decoded_body(tx.transaction@) && all[0].0 == 100 && all[0].1
                        == #[trigger] plugin::deshred_bytes(tx, slot) ==> richat_update(
                        100,
                        plugin::deshred_bytes(tx, slot),
                    ) == Some(RichatView::DeshredTransaction(deshred_told(tx, slot))),
            decreases fields.parts@.len() - i,
        {
            let tag: u32 = fields.parts[i].0;
            let payload: &[u8] = fields.parts[i].1.as_slice();
            proof {
                assert(all.take(i + 1).drop_last() =~= all.take(i as int));
                assert(all.take(i + 1).last() == (tag, payload@));
            }
            if decode_payload(tag, payload).is_none() {
                proof {
                    lemma_joined_failure(all, i + 1);
                }
                return Err(malformed_error());
            }
            envelope.join(tag, payload);
            i = i + 1;
        }
        assert(all.take(all.len() as int) =~= all);
        Ok(envelope)
    }

    /// Takes in one more part of the update.
    fn join(&mut self, tag: u32, payload: &[u8])
        ensures
            final(self)@ == (RichatModel {
                update: Some(joined(old(self)@.update, tag, payload@)),
                created_at: old(self)@.created_at,
            }),
    {
        let ghost before = self@.update;
        let mut bytes: Vec<u8> = Vec::new();
        match &self.update {
            Some((t, p)) => {
                if *t == tag {
                    encode::put_slice(p.as_slice(), &mut bytes);
                }
            },
            None => {},
        }
        encode::put_slice(payload, &mut bytes);
        assert((tag, bytes@) == joined(before, tag, payload@));
        self.update = Some((tag, bytes));
    }

    /// The update that the envelope holds, where it holds one.
    pub fn update_oneof(&self) -> (r: Result<Option<UpdateOneofRichat>, WireError>)
        ensures
            match self@.update {
                None => r is Ok && r->Ok_0 is None,
                Some((tag, payload)) => match richat_update(tag, payload) {
                    Some(m) => r is Ok && r->Ok_0 is Some && r->Ok_0->Some_0@ == m,
                    None => r is Err && r->Err_0@ == malformed(),
                },
            },
    {
        match &self.update {
            None => Ok(None),
            Some((tag, payload)) => match decode_payload(*tag, payload.as_slice()) {
                Some(update) => Ok(Some(update)),
                None => Err(malformed_error()),
            },
        }
    }
}

} // verus!
