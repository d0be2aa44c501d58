//! Messages that a validator sends which are none of the stream of other Geyser plugins, encoded.
//!
//! Fields come in the order of their tags. Unless said otherwise, one that has its default value is
//! left out.
use vstd::prelude::*;

use crate::codec;
use crate::encode;
use crate::geyser;
use crate::pubkey::Slot;
use crate::wire;
use crate::wire::WireType;

verus! {

/// The identifier of a bank.
pub type BankId = u64;

/// A message that can be encoded.
pub trait RawMessage {
    /// The fields of the message.
    spec fn bytes(&self) -> Seq<u8>;

    /// Appends the fields of the message.
    fn encode_raw(&self, buf: &mut Vec<u8>)
        ensures
            final(buf)@ == old(buf)@ + self.bytes(),
    ;

    /// The length of the fields of the message.
    fn encoded_len(&self) -> (r: usize)
        requires
            self.bytes().len() <= usize::MAX,
        ensures
            r == self.bytes().len(),
    ;
}

/// Appends the message as a length-delimited field.
pub fn message_encode<M: RawMessage>(tag: u32, message: &M, buf: &mut Vec<u8>)
    requires
        1 <= tag <= wire::MAX_TAG,
        message.bytes().len() <= usize::MAX,
    ensures
        final(buf)@ == old(buf)@ + wire::bytes_field(tag, message.bytes()),
{
    let ghost before = buf@;
    codec::encode_key(tag, WireType::LengthDelimited, buf);
    codec::encode_varint(message.encoded_len() as u64, buf);
    message.encode_raw(buf);
    assert(buf@ =~= before + wire::bytes_field(tag, message.bytes()));
}

/// The length of the message as a length-delimited field.
pub fn message_encoded_len<M: RawMessage>(tag: u32, message: &M) -> (r: usize)
    requires
        1 <= tag <= wire::MAX_TAG,
        wire::bytes_field(tag, message.bytes()).len() <= usize::MAX,
    ensures
        r == wire::bytes_field(tag, message.bytes()).len(),
{
    proof {
        encode::lemma_key_len(tag);
    }
    let len: usize = message.encoded_len();
    codec::key_len(tag) + codec::encoded_len_varint(len as u64) + len
}

// ---------------------------------------------------------------------------------------------
// Fields
// ---------------------------------------------------------------------------------------------

/// Appends a number of 16 bits.
fn u16_encode(tag: u32, value: u16, buf: &mut Vec<u8>)
    requires
        1 <= tag <= wire::MAX_TAG,
    ensures
        final(buf)@ == old(buf)@ + wire::varint_field_opt(tag, value as u64),
{
    encode::u64_encode(tag, value as u64, buf);
}

/// The length of a number of 16 bits.
fn u16_encoded_len(tag: u32, value: u16) -> (r: usize)
    requires
        1 <= tag <= wire::MAX_TAG,
    ensures
        r == wire::varint_field_opt(tag, value as u64).len(),
        r <= 20,
{
    u64_encoded_len(tag, value as u64)
}

/// Appends a number of 32 bits.
fn u32_encode(tag: u32, value: u32, buf: &mut Vec<u8>)
    requires
        1 <= tag <= wire::MAX_TAG,
    ensures
        final(buf)@ == old(buf)@ + wire::varint_field_opt(tag, value as u64),
{
    encode::u64_encode(tag, value as u64, buf);
}

/// The length of a number of 32 bits.
fn u32_encoded_len(tag: u32, value: u32) -> (r: usize)
    requires
        1 <= tag <= wire::MAX_TAG,
    ensures
        r == wire::varint_field_opt(tag, value as u64).len(),
        r <= 20,
{
    u64_encoded_len(tag, value as u64)
}

/// The length of a number of 64 bits.
fn u64_encoded_len(tag: u32, value: u64) -> (r: usize)
    requires
        1 <= tag <= wire::MAX_TAG,
    ensures
        r == wire::varint_field_opt(tag, value).len(),
        r <= 20,
{
    if value != 0 {
        encode::uint64_encoded_len(tag, value)
    } else {
        0
    }
}

/// The length of a flag.
fn bool_encoded_len(tag: u32, value: bool) -> (r: usize)
    requires
        1 <= tag <= wire::MAX_TAG,
    ensures
        r == wire::bool_field_opt(tag, value).len(),
        r <= 20,
{
    if value {
        encode::uint64_encoded_len(tag, 1)
    } else {
        0
    }
}

/// The length of bytes, left out where there are none.
fn nonempty_encoded_len(tag: u32, value: &[u8]) -> (r: usize)
    requires
        1 <= tag <= wire::MAX_TAG,
        wire::bytes_field_opt(tag, value@).len() <= usize::MAX,
    ensures
        r == wire::bytes_field_opt(tag, value@).len(),
{
    if value.len() == 0 {
        0
    } else {
        encode::bytes_encoded_len(tag, value)
    }
}

/// The longest text of a socket address.
pub const SOCKET_ADDR_MAX_LEN: usize = 58;

/// The text of a socket address.
#[derive(Debug)]
pub struct SocketAddrBuffer {
    buffer: [u8; 58],
    len: usize,
}

impl View for SocketAddrBuffer {
    type V = Seq<u8>;

    closed spec fn view(&self) -> Seq<u8> {
        self.buffer@.take(self.len as int)
    }
}

impl SocketAddrBuffer {
    /// The text lies within the buffer.
    #[verifier::type_invariant]
    spec fn wf(&self) -> bool {
        self.len <= SOCKET_ADDR_MAX_LEN
    }

    /// No text.
    pub fn new() -> (r: Self)
        ensures
            r@ == Seq::<u8>::empty(),
    {
        let r = SocketAddrBuffer { buffer: [0u8; 58], len: 0 };
        assert(r@ =~= Seq::<u8>::empty());
        r
    }

    /// The text of the address.
    pub fn format(addr: &str) -> (r: Self)
        requires
            vstd::utf8::encode_utf8(addr@).len() <= SOCKET_ADDR_MAX_LEN,
        ensures
            r@ == vstd::utf8::encode_utf8(addr@),
    {
        let mut buffer = SocketAddrBuffer::new();
        buffer.write_str(addr);
        assert(buffer@ =~= vstd::utf8::encode_utf8(addr@));
        buffer
    }

    /// Appends the text where it fits, and tells whether it did.
    pub fn write_str(&mut self, s: &str) -> (r: bool)
        ensures
            r == (old(self)@.len() + vstd::utf8::encode_utf8(s@).len() <= SOCKET_ADDR_MAX_LEN),
            final(self)@ == if r {
                old(self)@ + vstd::utf8::encode_utf8(s@)
            } else {
                old(self)@
            },
    {
        proof {
            use_type_invariant(&*self);
        }
        let ghost before = self@;
        let bytes: &[u8] = s.as_bytes();
        if bytes.len() > SOCKET_ADDR_MAX_LEN - self.len {
            return false;
        }
        let len: usize = self.len;
        let mut buffer: [u8; 58] = self.buffer;
        let mut i: usize = 0;
        while i < bytes.len()
            invariant
                i <= bytes@.len(),
                len + bytes@.len() <= 58,
                buffer@.len() == 58,
                buffer@.take(len as int) == before,
                before.len() == len,
                forall|j: int| len <= j < len + i ==> #[trigger] buffer@[j] == bytes@[j - len],
            decreases bytes@.len() - i,
        {
            buffer[len + i] = bytes[i];
            assert(buffer@.take(len as int) =~= before);
            i = i + 1;
        }
        proof {
            assert forall|j: int| 0 <= j < len implies #[trigger] buffer@[j] == before[j] by {
                assert(buffer@.take(len as int)[j] == before[j]);
            }
        }
        *self = SocketAddrBuffer { buffer, len: len + bytes.len() };
        assert(self@ =~= before + bytes@);
        true
    }

    /// The bytes of the text.
    pub fn as_bytes(&self) -> (r: &[u8])
        ensures
            r@ == self@,
    {
        proof {
            use_type_invariant(self);
        }
        vstd::slice::slice_subrange(self.buffer.as_slice(), 0, self.len)
    }
}

/// The text of a socket address, as a field.
pub open spec fn socket_field(tag: u32, addr: Option<Seq<char>>) -> Seq<u8> {
    encode::optional_field(
        tag,
        match addr {
            Some(text) => Some(vstd::utf8::encode_utf8(text)),
            None => None,
        },
    )
}

/// Appends the text of a socket address.
fn socket_addr_encode(tag: u32, addr: &Option<String>, buf: &mut Vec<u8>)
    requires
        1 <= tag <= wire::MAX_TAG,
    ensures
        final(buf)@ == old(buf)@ + socket_field(tag, geyser::text_opt(*addr)),
{
    match addr {
        Some(text) => encode::bytes_encode(tag, text.as_str().as_bytes(), buf),
        None => {
            assert(buf@ + socket_field(tag, None) =~= buf@);
        },
    }
}

/// The length of the text of a socket address.
fn socket_addr_encoded_len(tag: u32, addr: &Option<String>) -> (r: usize)
    requires
        1 <= tag <= wire::MAX_TAG,
        socket_field(tag, geyser::text_opt(*addr)).len() <= usize::MAX,
    ensures
        r == socket_field(tag, geyser::text_opt(*addr)).len(),
{
    match addr {
        Some(text) => encode::bytes_encoded_len(tag, text.as_str().as_bytes()),
        None => 0,
    }
}

// ---------------------------------------------------------------------------------------------
// Contact information
// ---------------------------------------------------------------------------------------------

/// What a node says of itself. The sockets are given as texts.
#[derive(Debug, Clone)]
pub struct ReplicaContactInfo {
    pub pubkey: Vec<u8>,
    pub wallclock: u64,
    pub outset: u64,
    pub shred_version: u16,
    pub version_major: u16,
    pub version_minor: u16,
    pub version_patch: u16,
    pub version_commit: u32,
    pub version_feature_set: u32,
    pub version_client_id: u16,
    pub gossip: Option<String>,
    pub tpu_quic: Option<String>,
    pub tpu_forwards_quic: Option<String>,
    pub tpu_vote_udp: Option<String>,
    pub tpu_vote_quic: Option<String>,
    pub tvu_udp: Option<String>,
    pub tvu_quic: Option<String>,
    pub serve_repair_udp: Option<String>,
    pub serve_repair_quic: Option<String>,
    pub rpc: Option<String>,
    pub rpc_pubsub: Option<String>,
    pub alpenglow: Option<String>,
}

/// The encoded numbers of a node.
pub open spec fn contact_numbers(info: ReplicaContactInfo) -> Seq<u8> {
    wire::bytes_field_opt(1, info.pubkey@) + wire::varint_field_opt(2, info.wallclock)
        + wire::varint_field_opt(3, info.outset) + wire::varint_field_opt(
        4,
        info.shred_version as u64,
    ) + wire::varint_field_opt(5, info.version_major as u64) + wire::varint_field_opt(
        6,
        info.version_minor as u64,
    ) + wire::varint_field_opt(7, info.version_patch as u64) + wire::varint_field_opt(
        8,
        info.version_commit as u64,
    ) + wire::varint_field_opt(9, info.version_feature_set as u64) + wire::varint_field_opt(
        10,
        info.version_client_id as u64,
    )
}

/// The encoded sockets of a node.
pub open spec fn contact_sockets(info: ReplicaContactInfo) -> Seq<u8> {
    socket_field(11, geyser::text_opt(info.gossip))
        + socket_field(12, geyser::text_opt(info.tpu_quic))
        + socket_field(13, geyser::text_opt(info.tpu_forwards_quic))
        + socket_field(14, geyser::text_opt(info.tpu_vote_udp))
        + socket_field(15, geyser::text_opt(info.tpu_vote_quic))
        + socket_field(16, geyser::text_opt(info.tvu_udp))
        + socket_field(17, geyser::text_opt(info.tvu_quic))
        + socket_field(18, geyser::text_opt(info.serve_repair_udp))
        + socket_field(19, geyser::text_opt(info.serve_repair_quic))
        + socket_field(20, geyser::text_opt(info.rpc))
        + socket_field(21, geyser::text_opt(info.rpc_pubsub))
        + socket_field(22, geyser::text_opt(info.alpenglow))
}

/// A node.
#[derive(Debug)]
pub struct ContactInfo<'a> {
    info: &'a ReplicaContactInfo,
}

impl<'a> ContactInfo<'a> {
    /// The node that `info` tells of.
    pub fn new(info: &'a ReplicaContactInfo) -> (r: Self)
        ensures
            r.bytes() == contact_numbers(*info) + contact_sockets(*info),
    {
        ContactInfo { info }
    }
}

impl RawMessage for ContactInfo<'_> {
    closed spec fn bytes(&self) -> Seq<u8> {
        contact_numbers(*self.info) + contact_sockets(*self.info)
    }

    fn encode_raw(&self, buf: &mut Vec<u8>) {
        let ghost before = buf@;
        contact_numbers_encode(self.info, buf);
        contact_sockets_encode(self.info, buf);
        assert(buf@ =~= before + self.bytes());
    }

    fn encoded_len(&self) -> (r: usize) {
        contact_numbers_len(self.info) + contact_sockets_len(self.info)
    }
}

fn contact_numbers_encode(info: &ReplicaContactInfo, buf: &mut Vec<u8>)
    ensures
        final(buf)@ == old(buf)@ + contact_numbers(*info),
{
    broadcast use encode::lemma_append;

    encode::bytes_encode_nonempty(1, info.pubkey.as_slice(), buf);
    encode::u64_encode(2, info.wallclock, buf);
    encode::u64_encode(3, info.outset, buf);
    u16_encode(4, info.shred_version, buf);
    u16_encode(5, info.version_major, buf);
    u16_encode(6, info.version_minor, buf);
    u16_encode(7, info.version_patch, buf);
    u32_encode(8, info.version_commit, buf);
    u32_encode(9, info.version_feature_set, buf);
    u16_encode(10, info.version_client_id, buf);
}

fn contact_sockets_encode(info: &ReplicaContactInfo, buf: &mut Vec<u8>)
    ensures
        final(buf)@ == old(buf)@ + contact_sockets(*info),
{
    broadcast use encode::lemma_append;

    socket_addr_encode(11, &info.gossip, buf);
    socket_addr_encode(12, &info.tpu_quic, buf);
    socket_addr_encode(13, &info.tpu_forwards_quic, buf);
    socket_addr_encode(14, &info.tpu_vote_udp, buf);
    socket_addr_encode(15, &info.tpu_vote_quic, buf);
    socket_addr_encode(16, &info.tvu_udp, buf);
    socket_addr_encode(17, &info.tvu_quic, buf);
    socket_addr_encode(18, &info.serve_repair_udp, buf);
    socket_addr_encode(19, &info.serve_repair_quic, buf);
    socket_addr_encode(20, &info.rpc, buf);
    socket_addr_encode(21, &info.rpc_pubsub, buf);
    socket_addr_encode(22, &info.alpenglow, buf);
}

fn contact_numbers_len(info: &ReplicaContactInfo) -> (r: usize)
    requires
        contact_numbers(*info).len() <= usize::MAX,
    ensures
        r == contact_numbers(*info).len(),
{
    nonempty_encoded_len(1, info.pubkey.as_slice()) + u64_encoded_len(2, info.wallclock)
        + u64_encoded_len(3, info.outset) + u16_encoded_len(4, info.shred_version)
        + u16_encoded_len(5, info.version_major) + u16_encoded_len(6, info.version_minor)
        + u16_encoded_len(7, info.version_patch) + u32_encoded_len(8, info.version_commit)
        + u32_encoded_len(9, info.version_feature_set) + u16_encoded_len(10, info.version_client_id)
}

fn contact_sockets_len(info: &ReplicaContactInfo) -> (r: usize)
    requires
        contact_sockets(*info).len() <= usize::MAX,
    ensures
        r == contact_sockets(*info).len(),
{
    socket_addr_encoded_len(11, &info.gossip) + socket_addr_encoded_len(12, &info.tpu_quic)
        + socket_addr_encoded_len(13, &info.tpu_forwards_quic)
        + socket_addr_encoded_len(14, &info.tpu_vote_udp)
        + socket_addr_encoded_len(15, &info.tpu_vote_quic)
        + socket_addr_encoded_len(16, &info.tvu_udp) + socket_addr_encoded_len(17, &info.tvu_quic)
        + socket_addr_encoded_len(18, &info.serve_repair_udp)
        + socket_addr_encoded_len(19, &info.serve_repair_quic)
        + socket_addr_encoded_len(20, &info.rpc) + socket_addr_encoded_len(21, &info.rpc_pubsub)
        + socket_addr_encoded_len(22, &info.alpenglow)
}

/// A node that is gone.
#[derive(Debug)]
pub struct ContactInfoRemoved<'a> {
    pubkey: &'a [u8],
}

impl<'a> ContactInfoRemoved<'a> {
    /// The node with the public key.
    pub fn new(pubkey: &'a [u8]) -> (r: Self)
        ensures
            r.bytes() == wire::bytes_field_opt(1, pubkey@),
    {
        ContactInfoRemoved { pubkey }
    }
}

impl RawMessage for ContactInfoRemoved<'_> {
    closed spec fn bytes(&self) -> Seq<u8> {
        wire::bytes_field_opt(1, self.pubkey@)
    }

    fn encode_raw(&self, buf: &mut Vec<u8>) {
        encode::bytes_encode_nonempty(1, self.pubkey, buf);
    }

    fn encoded_len(&self) -> (r: usize) {
        nonempty_encoded_len(1, self.pubkey)
    }
}

// ---------------------------------------------------------------------------------------------
// Block footers
// ---------------------------------------------------------------------------------------------

/// What a block footer says, and the whole of it serialized.
#[derive(Debug)]
pub struct BlockFooterView {
    pub version: u32,
    pub bank_hash: [u8; 32],
    pub block_producer_time_nanos: u64,
    pub block_user_agent: Vec<u8>,
    /// The serialized footer.
    pub footer: Vec<u8>,
}

/// The encoded footer. The hash is never left out.
pub open spec fn footer_bytes(slot: Slot, bank_id: BankId, view: BlockFooterView) -> Seq<u8> {
    wire::varint_field_opt(1, slot) + wire::varint_field_opt(2, bank_id) + wire::varint_field_opt(
        3,
        view.version as u64,
    ) + wire::bytes_field(4, view.bank_hash@) + wire::varint_field_opt(
        5,
        view.block_producer_time_nanos,
    ) + wire::bytes_field_opt(6, view.block_user_agent@) + wire::bytes_field_opt(7, view.footer@)
}

/// The footer of a block.
#[derive(Debug)]
pub struct BlockFooter<'a> {
    slot: Slot,
    bank_id: BankId,
    view: &'a BlockFooterView,
}

impl<'a> BlockFooter<'a> {
    /// The footer of the block that the bank made.
    pub fn new(slot: Slot, bank_id: BankId, view: &'a BlockFooterView) -> (r: Self)
        ensures
            r.bytes() == footer_bytes(slot, bank_id, *view),
    {
        BlockFooter { slot, bank_id, view }
    }
}

impl RawMessage for BlockFooter<'_> {
    closed spec fn bytes(&self) -> Seq<u8> {
        footer_bytes(self.slot, self.bank_id, *self.view)
    }

    fn encode_raw(&self, buf: &mut Vec<u8>) {
        broadcast use encode::lemma_append;

        encode::u64_encode(1, self.slot, buf);
        encode::u64_encode(2, self.bank_id, buf);
        u32_encode(3, self.view.version, buf);
        encode::bytes_encode(4, self.view.bank_hash.as_slice(), buf);
        encode::u64_encode(5, self.view.block_producer_time_nanos, buf);
        encode::bytes_encode_nonempty(6, self.view.block_user_agent.as_slice(), buf);
        encode::bytes_encode_nonempty(7, self.view.footer.as_slice(), buf);
    }

    fn encoded_len(&self) -> (r: usize) {
        u64_encoded_len(1, self.slot) + u64_encoded_len(2, self.bank_id) + u32_encoded_len(
            3,
            self.view.version,
        ) + encode::bytes_encoded_len(4, self.view.bank_hash.as_slice()) + u64_encoded_len(
            5,
            self.view.block_producer_time_nanos,
        ) + nonempty_encoded_len(6, self.view.block_user_agent.as_slice()) + nonempty_encoded_len(
            7,
            self.view.footer.as_slice(),
        )
    }
}

// ---------------------------------------------------------------------------------------------
// Changes of parents
// ---------------------------------------------------------------------------------------------

/// A block that got another parent, as replay found out.
#[derive(Debug)]
pub struct ReplicaEntryUpdateParentInfo {
    pub slot: Slot,
    pub cleared_bank_id: BankId,
    pub parent_slot: Slot,
    pub parent_block_id: [u8; 32],
}

/// A block that got another parent, as its shreds say.
#[derive(Debug)]
pub struct ReplicaDeshredUpdateParentInfo {
    pub slot: Slot,
    pub update_parent_fec_set_index: u32,
    pub parent_slot: Slot,
    pub parent_block_id: [u8; 32],
}

/// The encoded change of a parent. The identifier of the parent is never left out.
pub open spec fn update_parent_bytes(
    slot: Slot,
    second: u64,
    parent_slot: Slot,
    parent_block_id: Seq<u8>,
) -> Seq<u8> {
    wire::varint_field_opt(1, slot) + wire::varint_field_opt(2, second) + wire::varint_field_opt(
        3,
        parent_slot,
    ) + wire::bytes_field(4, parent_block_id)
}

/// A block that got another parent, as replay found out.
#[derive(Debug)]
pub struct EntryUpdateParent<'a> {
    info: &'a ReplicaEntryUpdateParentInfo,
}

impl<'a> EntryUpdateParent<'a> {
    /// The change that `info` tells of.
    pub fn new(info: &'a ReplicaEntryUpdateParentInfo) -> (r: Self)
        ensures
            r.bytes() == update_parent_bytes(
                info.slot,
                info.cleared_bank_id,
                info.parent_slot,
                info.parent_block_id@,
            ),
    {
        EntryUpdateParent { info }
    }
}

impl RawMessage for EntryUpdateParent<'_> {
    closed spec fn bytes(&self) -> Seq<u8> {
        update_parent_bytes(
            self.info.slot,
            self.info.cleared_bank_id,
            self.info.parent_slot,
            self.info.parent_block_id@,
        )
    }

    fn encode_raw(&self, buf: &mut Vec<u8>) {
        broadcast use encode::lemma_append;

        encode::u64_encode(1, self.info.slot, buf);
        encode::u64_encode(2, self.info.cleared_bank_id, buf);
        encode::u64_encode(3, self.info.parent_slot, buf);
        encode::bytes_encode(4, self.info.parent_block_id.as_slice(), buf);
    }

    fn encoded_len(&self) -> (r: usize) {
        u64_encoded_len(1, self.info.slot) + u64_encoded_len(2, self.info.cleared_bank_id)
            + u64_encoded_len(3, self.info.parent_slot) + encode::bytes_encoded_len(
            4,
            self.info.parent_block_id.as_slice(),
        )
    }
}

/// A block that got another parent, as its shreds say.
#[derive(Debug)]
pub struct DeshredUpdateParent<'a> {
    info: &'a ReplicaDeshredUpdateParentInfo,
}

impl<'a> DeshredUpdateParent<'a> {
    /// The change that `info` tells of.
    pub fn new(info: &'a ReplicaDeshredUpdateParentInfo) -> (r: Self)
        ensures
            r.bytes() == update_parent_bytes(
                info.slot,
                info.update_parent_fec_set_index as u64,
                info.parent_slot,
                info.parent_block_id@,
            ),
    {
        DeshredUpdateParent { info }
    }
}

impl RawMessage for DeshredUpdateParent<'_> {
    closed spec fn bytes(&self) -> Seq<u8> {
        update_parent_bytes(
            self.info.slot,
            self.info.update_parent_fec_set_index as u64,
            self.info.parent_slot,
            self.info.parent_block_id@,
        )
    }

    fn encode_raw(&self, buf: &mut Vec<u8>) {
        broadcast use encode::lemma_append;

        encode::u64_encode(1, self.info.slot, buf);
        u32_encode(2, self.info.update_parent_fec_set_index, buf);
        encode::u64_encode(3, self.info.parent_slot, buf);
        encode::bytes_encode(4, self.info.parent_block_id.as_slice(), buf);
    }

    fn encoded_len(&self) -> (r: usize) {
        u64_encoded_len(1, self.info.slot) + u32_encoded_len(
            2,
            self.info.update_parent_fec_set_index,
        ) + u64_encoded_len(3, self.info.parent_slot) + encode::bytes_encoded_len(
            4,
            self.info.parent_block_id.as_slice(),
        )
    }
}

// ---------------------------------------------------------------------------------------------
// Transactions before replay
// ---------------------------------------------------------------------------------------------

/// A transaction as its shreds have it. The transaction itself is given encoded.
#[derive(Debug)]
pub struct ReplicaDeshredTransactionInfo {
    pub signature: Vec<u8>,
    pub is_vote: bool,
    pub transaction: Vec<u8>,
    /// The addresses that the transaction loads, where they were looked up.
    pub loaded_addresses: Option<LoadedAddresses>,
    pub completed_data_set_starting_shred_index: u32,
    pub completed_data_set_ending_shred_index_exclusive: u32,
}

/// The addresses that a transaction loads.
#[derive(Debug)]
pub struct LoadedAddresses {
    pub writable: Vec<Vec<u8>>,
    pub readonly: Vec<Vec<u8>>,
}

/// The encoded addresses that a transaction loads.
pub open spec fn loaded_bytes(loaded: Option<LoadedAddresses>) -> Seq<u8> {
    match loaded {
        Some(loaded) => encode::repeated_field(4, geyser::bytes_each(loaded.writable@))
            + encode::repeated_field(5, geyser::bytes_each(loaded.readonly@)),
        None => Seq::empty(),
    }
}

/// The encoded transaction. Neither the signature nor the transaction itself is ever left out.
pub open spec fn deshred_info_bytes(tx: ReplicaDeshredTransactionInfo) -> Seq<u8> {
    wire::bytes_field(1, tx.signature@) + wire::bool_field_opt(2, tx.is_vote) + wire::bytes_field(
        3,
        tx.transaction@,
    ) + loaded_bytes(tx.loaded_addresses) + wire::varint_field_opt(
        6,
        tx.completed_data_set_starting_shred_index as u64,
    ) + wire::varint_field_opt(7, tx.completed_data_set_ending_shred_index_exclusive as u64)
}

/// The update of a transaction as its shreds have it.
pub open spec fn deshred_bytes(tx: ReplicaDeshredTransactionInfo, slot: u64) -> Seq<u8> {
    encode::transaction_bytes(deshred_info_bytes(tx), slot)
}

/// The addresses that the transaction loads, appended.
fn loaded_encode(loaded: &Option<LoadedAddresses>, buf: &mut Vec<u8>)
    ensures
        final(buf)@ == old(buf)@ + loaded_bytes(*loaded),
{
    broadcast use encode::lemma_append;

    match loaded {
        Some(loaded) => {
            encode::repeated_encode(4, &loaded.writable, buf);
            encode::repeated_encode(5, &loaded.readonly, buf);
        },
        None => {
            assert(buf@ + loaded_bytes(None) =~= buf@);
        },
    }
}

/// The length of a length-delimited field for each of `items`.
fn repeated_encoded_len(tag: u32, items: &Vec<Vec<u8>>) -> (r: usize)
    requires
        1 <= tag <= wire::MAX_TAG,
        encode::repeated_field(tag, geyser::bytes_each(items@)).len() <= usize::MAX,
    ensures
        r == encode::repeated_field(tag, geyser::bytes_each(items@)).len(),
{
    let ghost all = geyser::bytes_each(items@);
    let mut sum: usize = 0;
    let mut i: usize = 0;
    assert(all.take(0) =~= Seq::<Seq<u8>>::empty());
    while i < items.len()
        invariant
            i <= items@.len(),
            1 <= tag <= wire::MAX_TAG,
            all == geyser::bytes_each(items@),
            encode::repeated_field(tag, all).len() <= usize::MAX,
            sum == encode::repeated_field(tag, all.take(i as int)).len(),
        decreases items@.len() - i,
    {
        proof {
            assert(all.take(i + 1).drop_last() =~= all.take(i as int));
            assert(all.take(i + 1).last() == items@[i as int]@);
            lemma_repeated_prefix(tag, all, i + 1);
        }
        sum = sum + encode::bytes_encoded_len(tag, items[i].as_slice());
        i = i + 1;
    }
    assert(all.take(i as int) =~= all);
    sum
}

/// The fields of the first items are no longer than those of all.
proof fn lemma_repeated_prefix(tag: u32, items: Seq<Seq<u8>>, i: int)
    requires
        0 <= i <= items.len(),
    ensures
        encode::repeated_field(tag, items.take(i)).len() <= encode::repeated_field(
            tag,
            items,
        ).len(),
    decreases items.len() - i,
{
    if i < items.len() {
        assert(items.take(i + 1).drop_last() =~= items.take(i));
        lemma_repeated_prefix(tag, items, i + 1);
    } else {
        assert(items.take(i) =~= items);
    }
}

/// The length of the addresses that the transaction loads.
fn loaded_encoded_len(loaded: &Option<LoadedAddresses>) -> (r: usize)
    requires
        loaded_bytes(*loaded).len() <= usize::MAX,
    ensures
        r == loaded_bytes(*loaded).len(),
{
    match loaded {
        Some(loaded) => repeated_encoded_len(4, &loaded.writable) + repeated_encoded_len(
            5,
            &loaded.readonly,
        ),
        None => 0,
    }
}

/// A transaction as its shreds have it, in its update.
#[derive(Debug)]
pub struct ReplicaWrapper<'a> {
    tx: &'a ReplicaDeshredTransactionInfo,
}

impl RawMessage for ReplicaWrapper<'_> {
    closed spec fn bytes(&self) -> Seq<u8> {
        deshred_info_bytes(*self.tx)
    }

    fn encode_raw(&self, buf: &mut Vec<u8>) {
        broadcast use encode::lemma_append;

        let tx = self.tx;
        encode::bytes_encode(1, tx.signature.as_slice(), buf);
        encode::bool_encode(2, tx.is_vote, buf);
        encode::bytes_encode(3, tx.transaction.as_slice(), buf);
        loaded_encode(&tx.loaded_addresses, buf);
        u32_encode(6, tx.completed_data_set_starting_shred_index, buf);
        u32_encode(7, tx.completed_data_set_ending_shred_index_exclusive, buf);
    }

    fn encoded_len(&self) -> (r: usize) {
        let tx = self.tx;
        encode::bytes_encoded_len(1, tx.signature.as_slice()) + bool_encoded_len(2, tx.is_vote)
            + encode::bytes_encoded_len(3, tx.transaction.as_slice()) + loaded_encoded_len(
            &tx.loaded_addresses,
        ) + u32_encoded_len(6, tx.completed_data_set_starting_shred_index) + u32_encoded_len(
            7,
            tx.completed_data_set_ending_shred_index_exclusive,
        )
    }
}

/// The update of a transaction as its shreds have it.
#[derive(Debug)]
pub struct DeshredTransaction<'a> {
    slot: Slot,
    transaction: &'a ReplicaDeshredTransactionInfo,
}

impl<'a> DeshredTransaction<'a> {
    /// The update of the transaction.
    pub fn new(slot: Slot, transaction: &'a ReplicaDeshredTransactionInfo) -> (r: Self)
        ensures
            r.bytes() == encode::transaction_bytes(deshred_info_bytes(*transaction), slot),
    {
        DeshredTransaction { slot, transaction }
    }
}

impl RawMessage for DeshredTransaction<'_> {
    closed spec fn bytes(&self) -> Seq<u8> {
        encode::transaction_bytes(deshred_info_bytes(*self.transaction), self.slot)
    }

    fn encode_raw(&self, buf: &mut Vec<u8>) {
        broadcast use encode::lemma_append;

        let mut info: Vec<u8> = Vec::new();
        ReplicaWrapper { tx: self.transaction }.encode_raw(&mut info);
        assert(info@ =~= deshred_info_bytes(*self.transaction));
        encode::bytes_encode(1, info.as_slice(), buf);
        encode::u64_encode(2, self.slot, buf);
    }

    fn encoded_len(&self) -> (r: usize) {
        let tx = ReplicaWrapper { tx: self.transaction };
        message_encoded_len(1, &tx) + u64_encoded_len(2, self.slot)
    }
}

} // verus!
