//! The updates of a Geyser stream, encoded.
//!
//! A field that has its default value is left out, and fields come in the order of their tags.
use vstd::prelude::*;

use crate::codec;
use crate::codec::Timestamp;
use crate::geyser;
use crate::geyser::{
    AccountInfoView, AccountView, BlockMetaView, EntryView, SlotView, SubscribeUpdateBlockMeta,
    SubscribeUpdateEntry, SubscribeUpdateTransactionInfo, TransactionInfoView,
};
use crate::wire;
use crate::wire::WireType;

verus! {

// ---------------------------------------------------------------------------------------------
// What the encoded messages are
// ---------------------------------------------------------------------------------------------

/// A length-delimited field that is left out where there is no value.
pub open spec fn optional_field(tag: u32, payload: Option<Seq<u8>>) -> Seq<u8> {
    match payload {
        Some(p) => wire::bytes_field(tag, p),
        None => Seq::empty(),
    }
}

/// A varint field that is left out where there is no value.
pub open spec fn optional_varint(tag: u32, v: Option<u64>) -> Seq<u8> {
    match v {
        Some(v) => wire::varint_field(tag, v),
        None => Seq::empty(),
    }
}

/// A length-delimited field for each of `items`.
pub open spec fn repeated_field(tag: u32, items: Seq<Seq<u8>>) -> Seq<u8>
    decreases items.len(),
{
    if items.len() == 0 {
        Seq::empty()
    } else {
        repeated_field(tag, items.drop_last()) + wire::bytes_field(tag, items.last())
    }
}

/// The bytes of each of `texts`.
pub open spec fn utf8_each(texts: Seq<Seq<char>>) -> Seq<Seq<u8>> {
    texts.map_values(|t: Seq<char>| vstd::utf8::encode_utf8(t))
}

/// A slot update.
pub open spec fn slot_bytes(m: SlotView) -> Seq<u8> {
    wire::varint_field_opt(1, m.slot) + optional_varint(2, m.parent) + wire::varint_field_opt(
        3,
        m.status as u64,
    ) + optional_field(
        4,
        match m.dead_error {
            Some(e) => Some(vstd::utf8::encode_utf8(e)),
            None => None,
        },
    )
}

/// An account.
pub open spec fn account_info_bytes(m: AccountInfoView) -> Seq<u8> {
    wire::bytes_field_opt(1, m.pubkey) + wire::varint_field_opt(2, m.lamports)
        + wire::bytes_field_opt(3, m.owner) + wire::bool_field_opt(4, m.executable)
        + wire::varint_field_opt(5, m.rent_epoch) + wire::bytes_field_opt(6, m.data)
        + wire::varint_field_opt(7, m.write_version) + optional_field(8, m.txn_signature)
}

/// An account update.
pub open spec fn account_bytes(m: AccountView) -> Seq<u8> {
    optional_field(
        1,
        match m.account {
            Some(a) => Some(account_info_bytes(a)),
            None => None,
        },
    ) + wire::varint_field_opt(2, m.slot) + wire::bool_field_opt(3, m.is_startup)
}

/// A transaction of a block or of an update.
pub open spec fn transaction_info_bytes(m: TransactionInfoView) -> Seq<u8> {
    wire::bytes_field_opt(1, m.signature) + wire::bool_field_opt(2, m.is_vote) + optional_field(
        3,
        match m.transaction {
            Some(t) => Some(t.encoded),
            None => None,
        },
    ) + optional_field(
        4,
        match m.meta {
            Some(m) => Some(m.encoded),
            None => None,
        },
    ) + wire::varint_field_opt(5, m.index)
}

/// A transaction update.
pub open spec fn transaction_bytes(info: Seq<u8>, slot: u64) -> Seq<u8> {
    wire::bytes_field(1, info) + wire::varint_field_opt(2, slot)
}

/// A transaction status update.
pub open spec fn transaction_status_bytes(
    slot: u64,
    signature: Seq<u8>,
    is_vote: bool,
    index: u64,
    err: Option<Seq<u8>>,
) -> Seq<u8> {
    wire::varint_field_opt(1, slot) + wire::bytes_field_opt(2, signature) + wire::bool_field_opt(
        3,
        is_vote,
    ) + wire::varint_field_opt(4, index) + optional_field(
        5,
        match err {
            Some(e) => Some(wire::bytes_field_opt(1, e)),
            None => None,
        },
    )
}

/// An entry update.
pub open spec fn entry_bytes(m: EntryView) -> Seq<u8> {
    wire::varint_field_opt(1, m.slot) + wire::varint_field_opt(2, m.index)
        + wire::varint_field_opt(3, m.num_hashes) + wire::bytes_field_opt(4, m.hash)
        + wire::varint_field_opt(5, m.executed_transaction_count) + wire::varint_field_opt(
        6,
        m.starting_transaction_index,
    )
}

/// A message with one number in it, if there is one.
pub open spec fn number_message(v: Option<u64>) -> Option<Seq<u8>> {
    match v {
        Some(v) => Some(wire::varint_field_opt(1, v)),
        None => None,
    }
}

/// A time as a number.
pub open spec fn time_number(v: Option<i64>) -> Option<u64> {
    match v {
        Some(v) => Some(v as u64),
        None => None,
    }
}

/// The fields that start the metadata of a block and a block alike.
pub open spec fn block_head_bytes(m: BlockMetaView) -> Seq<u8> {
    wire::varint_field_opt(1, m.slot) + wire::bytes_field_opt(2, vstd::utf8::encode_utf8(m.blockhash))
        + optional_field(3, m.rewards) + optional_field(
        4,
        number_message(time_number(m.block_time)),
    ) + optional_field(5, number_message(m.block_height))
}

/// The metadata of a block.
pub open spec fn block_meta_bytes(m: BlockMetaView) -> Seq<u8> {
    block_head_bytes(m) + wire::varint_field_opt(6, m.parent_slot) + wire::bytes_field_opt(
        7,
        vstd::utf8::encode_utf8(m.parent_blockhash),
    ) + wire::varint_field_opt(8, m.executed_transaction_count) + wire::varint_field_opt(
        9,
        m.entries_count,
    )
}

/// A block.
pub open spec fn block_bytes(
    m: BlockMetaView,
    transactions: Seq<Seq<u8>>,
    updated_account_count: u64,
    accounts: Seq<Seq<u8>>,
    entries: Seq<Seq<u8>>,
) -> Seq<u8> {
    block_head_bytes(m) + repeated_field(6, transactions) + wire::varint_field_opt(
        7,
        m.parent_slot,
    ) + wire::bytes_field_opt(8, vstd::utf8::encode_utf8(m.parent_blockhash)) + wire::varint_field_opt(
        9,
        m.executed_transaction_count,
    ) + wire::varint_field_opt(10, updated_account_count) + repeated_field(11, accounts)
        + wire::varint_field_opt(12, m.entries_count) + repeated_field(13, entries)
}

/// An update in its envelope: the names of the filters that it passed, the update with its tag, and
/// the time when it was made.
pub open spec fn envelope_bytes(
    filters: Seq<Seq<char>>,
    tag: u32,
    payload: Seq<u8>,
    created_at: Timestamp,
) -> Seq<u8> {
    repeated_field(1, utf8_each(filters)) + wire::bytes_field(tag, payload) + wire::bytes_field(
        11,
        codec::timestamp_bytes(created_at),
    )
}

/// An envelope with the time and an update that is none of the stream.
pub open spec fn other_envelope(tag: u32, payload: Seq<u8>, created_at: Timestamp) -> Seq<u8> {
    wire::bytes_field(11, codec::timestamp_bytes(created_at)) + wire::bytes_field(tag, payload)
}

// ---------------------------------------------------------------------------------------------
// Writing fields
// ---------------------------------------------------------------------------------------------

/// Appends bytes.
pub fn put_slice(bytes: &[u8], buf: &mut Vec<u8>)
    ensures
        final(buf)@ == old(buf)@ + bytes@,
{
    let ghost before = buf@;
    buf.extend_from_slice(bytes);
    assert(buf@ =~= before + bytes@);
}

/// Appends a varint field.
pub fn uint64_encode(tag: u32, value: u64, buf: &mut Vec<u8>)
    requires
        1 <= tag <= wire::MAX_TAG,
    ensures
        final(buf)@ == old(buf)@ + wire::varint_field(tag, value),
{
    let ghost before = buf@;
    codec::encode_key(tag, WireType::Varint, buf);
    codec::encode_varint(value, buf);
    assert(buf@ =~= before + wire::varint_field(tag, value));
}

/// Appends a length-delimited field.
pub fn bytes_encode(tag: u32, value: &[u8], buf: &mut Vec<u8>)
    requires
        1 <= tag <= wire::MAX_TAG,
    ensures
        final(buf)@ == old(buf)@ + wire::bytes_field(tag, value@),
{
    let ghost before = buf@;
    codec::encode_key(tag, WireType::LengthDelimited, buf);
    codec::encode_varint(value.len() as u64, buf);
    put_slice(value, buf);
    assert(buf@ =~= before + wire::bytes_field(tag, value@));
}

/// The length of a varint field.
pub fn uint64_encoded_len(tag: u32, value: u64) -> (r: usize)
    requires
        1 <= tag <= wire::MAX_TAG,
    ensures
        r == wire::varint_field(tag, value).len(),
        r <= 20,
{
    proof {
        wire::lemma_key_round_trip(tag, WireType::Varint, Seq::empty());
        wire::lemma_varint_len(value);
    }
    codec::key_len(tag) + codec::encoded_len_varint(value)
}

/// The length of a length-delimited field.
pub fn bytes_encoded_len(tag: u32, value: &[u8]) -> (r: usize)
    requires
        1 <= tag <= wire::MAX_TAG,
        wire::bytes_field(tag, value@).len() <= usize::MAX,
    ensures
        r == wire::bytes_field(tag, value@).len(),
{
    proof {
        wire::lemma_key_round_trip(tag, WireType::LengthDelimited, Seq::empty());
        wire::lemma_varint_len(value@.len() as u64);
        lemma_key_len(tag);
    }
    codec::key_len(tag) + codec::encoded_len_varint(value.len() as u64) + value.len()
}

/// The wire type does not change the length of a key.
pub proof fn lemma_key_len(tag: u32)
    ensures
        wire::key_bytes(tag, WireType::LengthDelimited).len() == wire::key_bytes(
            tag,
            WireType::Varint,
        ).len(),
{
    let k = (tag * 8) as nat;
    assert((k + 2) / 128 == k / 128) by {
        assert(k % 8 == 0);
    }
    assert(k < 0x80 <==> k + 2 < 0x80);
}

/// Appends a varint field unless its value is zero.
pub fn u64_encode(tag: u32, value: u64, buf: &mut Vec<u8>)
    requires
        1 <= tag <= wire::MAX_TAG,
    ensures
        final(buf)@ == old(buf)@ + wire::varint_field_opt(tag, value),
{
    if value != 0 {
        uint64_encode(tag, value, buf);
    } else {
        assert(buf@ =~= buf@ + wire::varint_field_opt(tag, value));
    }
}

/// Appends a flag unless it is false.
pub fn bool_encode(tag: u32, value: bool, buf: &mut Vec<u8>)
    requires
        1 <= tag <= wire::MAX_TAG,
    ensures
        final(buf)@ == old(buf)@ + wire::bool_field_opt(tag, value),
{
    if value {
        uint64_encode(tag, 1, buf);
    } else {
        assert(buf@ =~= buf@ + wire::bool_field_opt(tag, value));
    }
}

/// Appends a length-delimited field unless it is empty.
pub fn bytes_encode_nonempty(tag: u32, value: &[u8], buf: &mut Vec<u8>)
    requires
        1 <= tag <= wire::MAX_TAG,
    ensures
        final(buf)@ == old(buf)@ + wire::bytes_field_opt(tag, value@),
{
    if value.len() != 0 {
        bytes_encode(tag, value, buf);
    } else {
        assert(buf@ =~= buf@ + wire::bytes_field_opt(tag, value@));
    }
}

/// Appends a varint field where there is a value.
pub fn optional_u64_encode(tag: u32, value: Option<u64>, buf: &mut Vec<u8>)
    requires
        1 <= tag <= wire::MAX_TAG,
    ensures
        final(buf)@ == old(buf)@ + optional_varint(tag, value),
{
    match value {
        Some(v) => uint64_encode(tag, v, buf),
        None => {
            assert(buf@ =~= buf@ + optional_varint(tag, value));
        },
    }
}

/// Appends a length-delimited field where there is a value.
pub fn optional_bytes_encode(tag: u32, value: Option<&[u8]>, buf: &mut Vec<u8>)
    requires
        1 <= tag <= wire::MAX_TAG,
    ensures
        final(buf)@ == old(buf)@ + optional_field(
            tag,
            match value {
                Some(v) => Some(v@),
                None => None,
            },
        ),
{
    match value {
        Some(v) => bytes_encode(tag, v, buf),
        None => {
            assert(buf@ =~= buf@ + optional_field(tag, None));
        },
    }
}

/// Appends a message with one number in it, where there is one.
fn optional_number_encode(tag: u32, value: Option<u64>, buf: &mut Vec<u8>)
    requires
        1 <= tag <= wire::MAX_TAG,
    ensures
        final(buf)@ == old(buf)@ + optional_field(tag, number_message(value)),
{
    match value {
        Some(v) => {
            let mut inner: Vec<u8> = Vec::new();
            u64_encode(1, v, &mut inner);
            assert(inner@ =~= wire::varint_field_opt(1, v));
            bytes_encode(tag, inner.as_slice(), buf)
        },
        None => {
            assert(buf@ =~= buf@ + optional_field(tag, None));
        },
    }
}

/// Appending is associative.
pub broadcast proof fn lemma_append(a: Seq<u8>, b: Seq<u8>, c: Seq<u8>)
    ensures
        #[trigger] ((a + b) + c) == a + (b + c),
{
    assert((a + b) + c =~= a + (b + c));
}

// ---------------------------------------------------------------------------------------------
// Writing messages
// ---------------------------------------------------------------------------------------------

/// Appends a length-delimited field for each of `items`.
pub fn repeated_encode(tag: u32, items: &Vec<Vec<u8>>, buf: &mut Vec<u8>)
    requires
        1 <= tag <= wire::MAX_TAG,
    ensures
        final(buf)@ == old(buf)@ + repeated_field(tag, geyser::bytes_each(items@)),
{
    let ghost before = buf@;
    let ghost all = geyser::bytes_each(items@);
    let mut i: usize = 0;
    assert(all.take(0) =~= Seq::<Seq<u8>>::empty());
    assert(before + repeated_field(tag, all.take(0)) =~= before);
    while i < items.len()
        invariant
            i <= items@.len(),
            1 <= tag <= wire::MAX_TAG,
            all == geyser::bytes_each(items@),
            buf@ == before + repeated_field(tag, all.take(i as int)),
        decreases items@.len() - i,
    {
        bytes_encode(tag, items[i].as_slice(), buf);
        proof {
            let next = all.take(i + 1);
            assert(next.drop_last() =~= all.take(i as int));
            assert(next.last() == items@[i as int]@);
            lemma_append(
                before,
                repeated_field(tag, all.take(i as int)),
                wire::bytes_field(tag, next.last()),
            );
        }
        i = i + 1;
    }
    assert(all.take(items@.len() as int) =~= all);
}

/// Appends an account.
pub fn account_info_encode(
    pubkey: &[u8],
    lamports: u64,
    owner: &[u8],
    executable: bool,
    rent_epoch: u64,
    data: &[u8],
    write_version: u64,
    txn_signature: Option<&[u8]>,
    buf: &mut Vec<u8>,
)
    ensures
        final(buf)@ == old(buf)@ + account_info_bytes(
            (AccountInfoView {
                pubkey: pubkey@,
                lamports,
                owner: owner@,
                executable,
                rent_epoch,
                data: data@,
                write_version,
                txn_signature: match txn_signature {
                    Some(v) => Some(v@),
                    None => None,
                },
            }),
        ),
{
    broadcast use lemma_append;

    bytes_encode_nonempty(1, pubkey, buf);
    u64_encode(2, lamports, buf);
    bytes_encode_nonempty(3, owner, buf);
    bool_encode(4, executable, buf);
    u64_encode(5, rent_epoch, buf);
    bytes_encode_nonempty(6, data, buf);
    u64_encode(7, write_version, buf);
    optional_bytes_encode(8, txn_signature, buf);
}

/// Appends an account update with the encoded account `info`.
pub fn account_encode(info: &[u8], slot: u64, is_startup: bool, buf: &mut Vec<u8>)
    ensures
        final(buf)@ == old(buf)@ + (wire::bytes_field(1, info@) + wire::varint_field_opt(2, slot)
            + wire::bool_field_opt(3, is_startup)),
{
    broadcast use lemma_append;

    bytes_encode(1, info, buf);
    u64_encode(2, slot, buf);
    bool_encode(3, is_startup, buf);
}

/// Appends a slot update.
pub fn slot_encode(
    slot: u64,
    parent: Option<u64>,
    status: i32,
    dead_error: Option<&str>,
    buf: &mut Vec<u8>,
)
    ensures
        final(buf)@ == old(buf)@ + slot_bytes(
            (SlotView {
                slot,
                parent,
                status,
                dead_error: match dead_error {
                    Some(e) => Some(e@),
                    None => None,
                },
            }),
        ),
{
    broadcast use lemma_append;

    u64_encode(1, slot, buf);
    optional_u64_encode(2, parent, buf);
    u64_encode(3, status as u64, buf);
    let text: Option<&[u8]> = match dead_error {
        Some(e) => Some(e.as_bytes()),
        None => None,
    };
    optional_bytes_encode(4, text, buf);
}

/// Appends a transaction.
pub fn transaction_info_encode(info: &SubscribeUpdateTransactionInfo, buf: &mut Vec<u8>)
    ensures
        final(buf)@ == old(buf)@ + transaction_info_bytes(info@),
{
    broadcast use lemma_append;

    bytes_encode_nonempty(1, info.signature.as_slice(), buf);
    bool_encode(2, info.is_vote, buf);
    let transaction: Option<&[u8]> = match &info.transaction {
        Some(t) => Some(t.encoded.as_slice()),
        None => None,
    };
    optional_bytes_encode(3, transaction, buf);
    let meta: Option<&[u8]> = match &info.meta {
        Some(m) => Some(m.encoded.as_slice()),
        None => None,
    };
    optional_bytes_encode(4, meta, buf);
    u64_encode(5, info.index, buf);
}

/// Appends a transaction update with the encoded transaction `info`.
pub fn transaction_encode(info: &[u8], slot: u64, buf: &mut Vec<u8>)
    ensures
        final(buf)@ == old(buf)@ + transaction_bytes(info@, slot),
{
    broadcast use lemma_append;

    bytes_encode(1, info, buf);
    u64_encode(2, slot, buf);
}

/// Appends a transaction status update.
pub fn transaction_status_encode(
    slot: u64,
    signature: &[u8],
    is_vote: bool,
    index: u64,
    err: Option<&[u8]>,
    buf: &mut Vec<u8>,
)
    ensures
        final(buf)@ == old(buf)@ + transaction_status_bytes(
            slot,
            signature@,
            is_vote,
            index,
            match err {
                Some(e) => Some(e@),
                None => None,
            },
        ),
{
    broadcast use lemma_append;

    u64_encode(1, slot, buf);
    bytes_encode_nonempty(2, signature, buf);
    bool_encode(3, is_vote, buf);
    u64_encode(4, index, buf);
    match err {
        Some(e) => {
            let mut inner: Vec<u8> = Vec::new();
            bytes_encode_nonempty(1, e, &mut inner);
            assert(inner@ =~= wire::bytes_field_opt(1, e@));
            bytes_encode(5, inner.as_slice(), buf);
        },
        None => {
            assert(buf@ =~= buf@ + optional_field(5, None));
        },
    }
}

/// Appends an entry update.
pub fn entry_encode(entry: &SubscribeUpdateEntry, buf: &mut Vec<u8>)
    ensures
        final(buf)@ == old(buf)@ + entry_bytes(entry@),
{
    broadcast use lemma_append;

    u64_encode(1, entry.slot, buf);
    u64_encode(2, entry.index, buf);
    u64_encode(3, entry.num_hashes, buf);
    bytes_encode_nonempty(4, entry.hash.as_slice(), buf);
    u64_encode(5, entry.executed_transaction_count, buf);
    u64_encode(6, entry.starting_transaction_index, buf);
}

/// Appends the fields that start the metadata of a block and a block alike.
fn block_head_encode(meta: &SubscribeUpdateBlockMeta, buf: &mut Vec<u8>)
    ensures
        final(buf)@ == old(buf)@ + block_head_bytes(meta@),
{
    broadcast use lemma_append;

    u64_encode(1, meta.slot, buf);
    bytes_encode_nonempty(2, meta.blockhash.as_str().as_bytes(), buf);
    let rewards: Option<&[u8]> = match &meta.rewards {
        Some(r) => Some(r.as_slice()),
        None => None,
    };
    optional_bytes_encode(3, rewards, buf);
    let time: Option<u64> = match meta.block_time {
        Some(t) => Some(t as u64),
        None => None,
    };
    optional_number_encode(4, time, buf);
    optional_number_encode(5, meta.block_height, buf);
}

/// Appends the metadata of a block.
pub fn block_meta_encode(meta: &SubscribeUpdateBlockMeta, buf: &mut Vec<u8>)
    ensures
        final(buf)@ == old(buf)@ + block_meta_bytes(meta@),
{
    broadcast use lemma_append;

    block_head_encode(meta, buf);
    u64_encode(6, meta.parent_slot, buf);
    bytes_encode_nonempty(7, meta.parent_blockhash.as_str().as_bytes(), buf);
    u64_encode(8, meta.executed_transaction_count, buf);
    u64_encode(9, meta.entries_count, buf);
}

/// Appends a block.
pub fn block_encode(
    meta: &SubscribeUpdateBlockMeta,
    transactions: &Vec<Vec<u8>>,
    updated_account_count: u64,
    accounts: &Vec<Vec<u8>>,
    entries: &Vec<Vec<u8>>,
    buf: &mut Vec<u8>,
)
    ensures
        final(buf)@ == old(buf)@ + block_bytes(
            meta@,
            geyser::bytes_each(transactions@),
            updated_account_count,
            geyser::bytes_each(accounts@),
            geyser::bytes_each(entries@),
        ),
{
    broadcast use lemma_append;

    block_head_encode(meta, buf);
    repeated_encode(6, transactions, buf);
    u64_encode(7, meta.parent_slot, buf);
    bytes_encode_nonempty(8, meta.parent_blockhash.as_str().as_bytes(), buf);
    u64_encode(9, meta.executed_transaction_count, buf);
    u64_encode(10, updated_account_count, buf);
    repeated_encode(11, accounts, buf);
    u64_encode(12, meta.entries_count, buf);
    repeated_encode(13, entries, buf);
}

} // verus!
