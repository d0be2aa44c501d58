//! Account messages, and how their write version is replaced.
use std::ops::Range;

use vstd::prelude::*;

use crate::codec;
use crate::codec::Timestamp;
use crate::decode;
use crate::decode::{AccountModel, LimitedDecode, Span, UpdateOneofLimitedDecodeAccount};
use crate::fields;
use crate::geyser::{AccountInfoView, SubscribeUpdateAccountInfo};
use crate::message::{MessageBlockCreatedAt, MessageParserEncoding};
use crate::pubkey::{Epoch, PUBKEY_BYTES, Pubkey, Slot};
use crate::relocation;
use crate::wire;
use crate::write_version;

verus! {

/// An account message.
#[derive(Debug, PartialEq, Eq)]
pub enum MessageAccount {
    /// The update as it came, with the places of what is in it.
    Limited {
        pubkey: Pubkey,
        owner: Pubkey,
        lamports: u64,
        executable: bool,
        rent_epoch: Epoch,
        data: Range<usize>,
        txn_signature_offset: Option<usize>,
        write_version: usize,
        slot: Slot,
        is_startup: bool,
        created_at: Timestamp,
        buffer: Vec<u8>,
        account_offset: usize,
        range: Range<usize>,
    },
    /// The update in full.
    Prost {
        pubkey: Pubkey,
        owner: Pubkey,
        account: SubscribeUpdateAccountInfo,
        slot: Slot,
        is_startup: bool,
        created_at: Timestamp,
        size: usize,
    },
}

/// What an account message holds.
pub ghost enum MessageAccountView {
    Limited { fields: AccountModel, created_at: Timestamp, buffer: Seq<u8>, range: Span },
    Prost {
        pubkey: Seq<u8>,
        owner: Seq<u8>,
        account: AccountInfoView,
        slot: u64,
        is_startup: bool,
        created_at: Timestamp,
        size: nat,
    },
}

impl View for MessageAccount {
    type V = MessageAccountView;

    open spec fn view(&self) -> MessageAccountView {
        match *self {
            MessageAccount::Limited {
                pubkey,
                owner,
                lamports,
                executable,
                rent_epoch,
                data,
                txn_signature_offset,
                write_version,
                slot,
                is_startup,
                created_at,
                buffer,
                account_offset,
                range,
            } => MessageAccountView::Limited {
                fields: AccountModel {
                    account: account_offset as nat,
                    pubkey: pubkey@,
                    owner: owner@,
                    lamports,
                    executable,
                    rent_epoch,
                    data: decode::span(data),
                    txn_signature: decode::place_opt(txn_signature_offset),
                    write_version: decode::mark_opt(write_version),
                    slot,
                    is_startup,
                },
                created_at,
                buffer: buffer@,
                range: decode::span(range),
            },
            MessageAccount::Prost {
                pubkey,
                owner,
                account,
                slot,
                is_startup,
                created_at,
                size,
            } => MessageAccountView::Prost {
                pubkey: pubkey@,
                owner: owner@,
                account: account@,
                slot,
                is_startup,
                created_at,
                size: size as nat,
            },
        }
    }
}

// ---------------------------------------------------------------------------------------------
// What an account message says
// ---------------------------------------------------------------------------------------------

/// The bytes of `buffer` at `sp`.
pub open spec fn bytes_at(buffer: Seq<u8>, sp: Span) -> Seq<u8> {
    buffer.subrange(sp.start as int, sp.end as int)
}

/// The account update that `payload` decodes to, where it does and holds an account.
#[verifier::opaque]
pub open spec fn payload_account(payload: Seq<u8>) -> Option<AccountModel> {
    match fields::all_fields::<UpdateOneofLimitedDecodeAccount>(
        UpdateOneofLimitedDecodeAccount::empty(),
        payload,
    ) {
        Ok(m) => if m.account != usize::MAX {
            Some(m)
        } else {
            None
        },
        Err(_) => None,
    }
}

/// The signature of 64 bytes at the place `x` of `buffer`, if there is one.
pub open spec fn signature_at(buffer: Seq<u8>, x: Option<nat>) -> Option<Seq<u8>> {
    match x {
        Some(x) => Some(buffer.subrange(x as int, (x + 64) as int)),
        None => None,
    }
}

/// The write version at the place `x` of `buffer`, 0 where there is none.
pub open spec fn version_at(buffer: Seq<u8>, x: Option<nat>) -> u64 {
    match x {
        Some(x) => wire::varint(buffer.skip(x as int))->Some_0.0,
        None => 0,
    }
}

/// An account: what the message says, wherever its bytes lie.
pub ghost struct AccountContent {
    pub info: AccountInfoView,
    pub slot: u64,
    pub is_startup: bool,
}

/// What the account update with the places `m` in `buffer` says.
pub open spec fn content(buffer: Seq<u8>, m: AccountModel) -> AccountContent {
    AccountContent {
        info: AccountInfoView {
            pubkey: m.pubkey,
            lamports: m.lamports,
            owner: m.owner,
            executable: m.executable,
            rent_epoch: m.rent_epoch,
            data: bytes_at(buffer, m.data),
            write_version: version_at(buffer, m.write_version),
            txn_signature: signature_at(buffer, m.txn_signature),
        },
        slot: m.slot,
        is_startup: m.is_startup,
    }
}

impl MessageAccountView {
    /// What the message says.
    pub open spec fn content(self) -> AccountContent {
        match self {
            MessageAccountView::Limited { fields, buffer, .. } => content(buffer, fields),
            MessageAccountView::Prost { pubkey, owner, account, slot, is_startup, .. } => {
                AccountContent { info: AccountInfoView { pubkey, owner, ..account }, slot, is_startup }
            },
        }
    }

    /// When the update was made.
    pub open spec fn created_at(self) -> Timestamp {
        match self {
            MessageAccountView::Limited { created_at, .. } => created_at,
            MessageAccountView::Prost { created_at, .. } => created_at,
        }
    }

    /// Whether the places lie within the buffer, and there is a varint where the write version is, if
    /// there is one.
    pub open spec fn in_bounds(self) -> bool {
        match self {
            MessageAccountView::Limited { fields, buffer, range, .. } => {
                &&& range.start <= range.end <= buffer.len()
                &&& fields.data.start <= fields.data.end <= buffer.len()
                &&& fields.txn_signature matches Some(x) ==> x + 64 <= buffer.len()
                &&& fields.write_version matches Some(w) ==> w <= buffer.len() && wire::varint(
                    buffer.skip(w as int),
                ) is Some
            },
            MessageAccountView::Prost { .. } => true,
        }
    }

    /// Whether the message is what the bytes at its range decode to: the same account, at the same
    /// places, and the same data and signature, wherever these lie.
    pub open spec fn decoded(self) -> bool {
        match self {
            MessageAccountView::Limited { fields, buffer, range, .. } => {
                let payload = bytes_at(buffer, range);
                &&& range.start <= range.end <= buffer.len()
                &&& payload_account(payload) matches Some(m) && {
                    &&& fields.account == m.account + range.start
                    &&& fields.write_version == match m.write_version {
                        Some(w) => Some((w + range.start) as nat),
                        None => None,
                    }
                    &&& fields.pubkey == m.pubkey
                    &&& fields.owner == m.owner
                    &&& fields.lamports == m.lamports
                    &&& fields.executable == m.executable
                    &&& fields.rent_epoch == m.rent_epoch
                    &&& fields.slot == m.slot
                    &&& fields.is_startup == m.is_startup
                    &&& fields.data.start <= fields.data.end <= buffer.len()
                    &&& bytes_at(buffer, fields.data) == bytes_at(payload, m.data)
                    &&& fields.txn_signature is Some <==> m.txn_signature is Some
                    &&& fields.txn_signature matches Some(x) ==> x + 64 <= buffer.len()
                    &&& signature_at(buffer, fields.txn_signature) == signature_at(
                        payload,
                        m.txn_signature,
                    )
                }
            },
            MessageAccountView::Prost { .. } => true,
        }
    }

    /// Whether the data and the signature, where there are any, lie in the account whose place the
    /// message knows. They do unless an update holds several accounts.
    pub open spec fn placed(self) -> bool {
        match self {
            MessageAccountView::Limited { fields, buffer, range, .. } => {
                let m = payload_account(bytes_at(buffer, range))->Some_0;
                &&& fields.data.end <= range.end
                &&& m.data.start < m.data.end || fields.data.start < fields.data.end ==> {
                    &&& m.account < m.data.start
                    &&& fields.data.start == m.data.start + range.start
                    &&& fields.data.end == m.data.end + range.start
                }
                &&& m.txn_signature matches Some(x) ==> m.account < x && fields.txn_signature
                    == Some((x + range.start) as nat)
            },
            MessageAccountView::Prost { .. } => true,
        }
    }

    /// Whether the write version can be replaced in place: the account holds one, and the sizes and
    /// places fit the machine.
    pub open spec fn replaceable(self, v: u64) -> bool {
        match self {
            MessageAccountView::Limited { fields, buffer, range, .. } => {
                let payload = bytes_at(buffer, range);
                let a = fields.account - range.start;
                let version = write_version::version_place(fields);
                let w = version - range.start;
                let d1 = write_version::splice_shift_before(payload, a, w, v);
                let d2 = write_version::splice_shift_after(payload, w, v);
                &&& fields.account < version
                &&& buffer.len() + 20 <= usize::MAX
                &&& 0 <= fields.data.start + d1
                &&& 0 <= moved_by(fields.data.start, version, d1, d2)
                &&& fields.txn_signature matches Some(x) ==> {
                    &&& 0 <= x + d1
                    &&& 0 <= moved_by(x, version, d1, d2)
                }
            },
            MessageAccountView::Prost { account, size, .. } => {
                &&& size + 10 <= usize::MAX
                &&& size >= wire::varint_bytes(account.write_version as nat).len()
            },
        }
    }
}

/// Where a place lies after a splice that moves all places by `d1`, and those that end up beyond
/// the write version by `d2` as well.
pub open spec fn moved_by(x: nat, write_version: nat, d1: int, d2: int) -> int {
    if x > write_version {
        x + d1 + d2
    } else {
        x + d1
    }
}

/// An account update with `v` in place of its write version.
pub open spec fn updated(m: MessageAccountView, v: u64) -> MessageAccountView {
    match m {
        MessageAccountView::Limited { fields, created_at, buffer, range } => {
            let payload = bytes_at(buffer, range);
            let a = fields.account - range.start;
            let version = write_version::version_place(fields);
            let w = version - range.start;
            let d1 = write_version::splice_shift_before(payload, a, w, v);
            let d2 = write_version::splice_shift_after(payload, w, v);
            let start = moved_by(fields.data.start, version, d1, d2);
            let head = buffer.take(range.start as int) + write_version::splice(payload, a, w, v);
            MessageAccountView::Limited {
                fields: AccountModel {
                    data: Span {
                        start: start as nat,
                        end: (start + fields.data.end - fields.data.start) as nat,
                    },
                    txn_signature: match fields.txn_signature {
                        Some(x) => Some(moved_by(x, version, d1, d2) as nat),
                        None => None,
                    },
                    write_version: Some((version + d1) as nat),
                    ..fields
                },
                created_at,
                buffer: if head.len() < buffer.len() {
                    head + buffer.skip(head.len() as int)
                } else {
                    head
                },
                range: Span { start: range.start, end: head.len() },
            }
        },
        MessageAccountView::Prost {
            pubkey,
            owner,
            account,
            slot,
            is_startup,
            created_at,
            size,
        } => MessageAccountView::Prost {
            pubkey,
            owner,
            account: AccountInfoView { write_version: v, ..account },
            slot,
            is_startup,
            created_at,
            size: (size + wire::varint_bytes(v as nat).len() - wire::varint_bytes(
                account.write_version as nat,
            ).len()) as nat,
        },
    }
}

/// The places of a decoded message lie within it, and there is a varint where the write version is.
pub proof fn lemma_decoded_points(fields: AccountModel, created_at: Timestamp, buffer: Seq<u8>, range: Span)
    requires
        (MessageAccountView::Limited { fields, created_at, buffer, range }).decoded(),
        fields.account < write_version::version_place(fields),
    ensures
        range.start <= fields.account,
        write_version::splice_points(
            bytes_at(buffer, range),
            fields.account - range.start,
            write_version::version_place(fields) - range.start,
        ),
{
    lemma_payload_places(bytes_at(buffer, range));
}

/// The places of a decoded update lie within it.
pub proof fn lemma_payload_places(payload: Seq<u8>)
    requires
        payload_account(payload) is Some,
    ensures
        ({
            let m = payload_account(payload)->Some_0;
            &&& 0 < m.account < payload.len()
            &&& write_version::places_below(m, payload.len())
            &&& m.account < write_version::version_place(m) ==> {
                &&& write_version::splice_points(
                    payload,
                    m.account as int,
                    write_version::version_place(m) as int,
                )
                &&& write_version::apart(
                    m,
                    m.account,
                    wire::varint(payload.skip(m.account as int))->Some_0.1,
                )
                &&& write_version::apart(
                    m,
                    write_version::version_place(m),
                    wire::varint(payload.skip(write_version::version_place(m) as int))->Some_0.1,
                )
            }
        }),
{
    reveal(payload_account);
    let m0 = UpdateOneofLimitedDecodeAccount::empty();
    let m = payload_account(payload)->Some_0;
    write_version::lemma_update_places(m0, payload, 0);
    if m.account < write_version::version_place(m) {
        write_version::lemma_splice_points(m0, payload, 0);
        write_version::lemma_update_apart(m0, payload, 0);
    }
}

/// Appends the bytes of `buffer` from `start` up to `end`.
fn extend(to: &mut Vec<u8>, buffer: &[u8], start: usize, end: usize)
    requires
        start <= end <= buffer@.len(),
    ensures
        final(to)@ == old(to)@ + buffer@.subrange(start as int, end as int),
{
    let ghost before = to@;
    let run: &[u8] = vstd::slice::slice_subrange(buffer, start, end);
    to.extend_from_slice(run);
    assert(to@ =~= before + run@);
}

/// The value of the varint at `offset`, and its length.
fn varint_at(buffer: &[u8], offset: usize) -> (r: (u64, usize))
    requires
        offset <= buffer@.len(),
        wire::varint(buffer@.skip(offset as int)) is Some,
    ensures
        wire::varint(buffer@.skip(offset as int)) == Some((r.0, r.1 as nat)),
{
    let mut buf: &[u8] = vstd::slice::slice_subrange(buffer, offset, buffer.len());
    proof {
        assert(buf@ =~= buffer@.skip(offset as int));
        wire::lemma_varint_bounds(buf@);
    }
    let start: usize = buf.len();
    match codec::decode_varint(&mut buf) {
        Ok(v) => (v, start - buf.len()),
        Err(_) => (0, 0),
    }
}

/// A varint of the bytes at `range` is a varint of the whole buffer.
pub proof fn lemma_varint_in_range(buffer: Seq<u8>, range: Span, x: int)
    requires
        range.start <= range.end <= buffer.len(),
        0 <= x,
        range.start + x <= range.end,
        wire::varint(bytes_at(buffer, range).skip(x)) is Some,
    ensures
        wire::varint(buffer.skip(range.start + x)) == wire::varint(bytes_at(buffer, range).skip(x)),
{
    let s = bytes_at(buffer, range).skip(x);
    wire::lemma_varint_bounds(s);
    let n = wire::varint(s)->Some_0.1;
    assert(buffer.skip(range.start + x).take(n as int) =~= s.take(n as int));
    wire::lemma_varint_stable(s, buffer.skip(range.start + x));
}

/// The lengths that a splice is made of.
struct SpliceSizes {
    /// The new length of the account.
    msg_size: u64,
    msg_size_current: usize,
    msg_size_new: usize,
    wv_size_current: usize,
    wv_size_new: usize,
}

impl SpliceSizes {
    /// Whether these are the lengths of the splice of `v` into the bytes at `range`.
    spec fn of(self, buffer: Seq<u8>, range: Span, account: int, write_version: int, v: u64) -> bool {
        let payload = bytes_at(buffer, range);
        let a = account - range.start;
        let w = write_version - range.start;
        &&& self.msg_size == write_version::spliced_len(payload, a, w, v)
        &&& self.msg_size_current == wire::varint(payload.skip(a))->Some_0.1
        &&& self.msg_size_new == wire::varint_bytes(self.msg_size as nat).len()
        &&& self.wv_size_current == wire::varint(payload.skip(w))->Some_0.1
        &&& self.wv_size_new == wire::varint_bytes(v as nat).len()
        &&& 1 <= self.msg_size_current <= 10
        &&& 1 <= self.msg_size_new <= 10
        &&& 1 <= self.wv_size_current <= 10
        &&& 1 <= self.wv_size_new <= 10
    }
}

/// The lengths of the splice of `write_version` into the bytes at `range`.
fn splice_sizes(
    buffer: &Vec<u8>,
    range: &Range<usize>,
    account_offset: usize,
    write_version_current: usize,
    write_version: u64,
) -> (r: SpliceSizes)
    requires
        range.start <= range.end <= buffer@.len(),
        range.start <= account_offset,
        buffer@.len() + 20 <= usize::MAX,
        write_version::splice_points(
            bytes_at(buffer@, decode::span(*range)),
            account_offset - range.start,
            write_version_current - range.start,
        ),
    ensures
        r.of(
            buffer@,
            decode::span(*range),
            account_offset as int,
            write_version_current as int,
            write_version,
        ),
{
    let ghost payload = bytes_at(buffer@, decode::span(*range));
    let ghost a = account_offset - range.start;
    let ghost w = write_version_current - range.start;
    proof {
        lemma_varint_in_range(buffer@, decode::span(*range), a);
        lemma_varint_in_range(buffer@, decode::span(*range), w);
        wire::lemma_varint_bounds(payload.skip(a));
        wire::lemma_varint_bounds(payload.skip(w));
        wire::lemma_varint_len(write_version);
        write_version::lemma_splice_account(payload, a, w, write_version);
        wire::lemma_varint_len(write_version::spliced_len(payload, a, w, write_version) as u64);
    }
    let (_, wv_size_current) = varint_at(buffer.as_slice(), write_version_current);
    let wv_size_new: usize = codec::encoded_len_varint(write_version);
    let (msg_size_old, msg_size_current) = varint_at(buffer.as_slice(), account_offset);
    let msg_size: u64 = msg_size_old + wv_size_new as u64 - wv_size_current as u64;
    let msg_size_new: usize = codec::encoded_len_varint(msg_size);
    SpliceSizes { msg_size, msg_size_current, msg_size_new, wv_size_current, wv_size_new }
}

/// The buffer with `write_version` spliced into the bytes at `range`, which then end at `new_end`.
fn splice_buffer(
    buffer: &Vec<u8>,
    range: &Range<usize>,
    account_offset: usize,
    write_version_current: usize,
    write_version: u64,
    sizes: &SpliceSizes,
    new_end: usize,
) -> (r: Vec<u8>)
    requires
        range.start <= range.end <= buffer@.len(),
        range.start <= account_offset,
        buffer@.len() + 20 <= usize::MAX,
        write_version::splice_points(
            bytes_at(buffer@, decode::span(*range)),
            account_offset - range.start,
            write_version_current - range.start,
        ),
        sizes.of(
            buffer@,
            decode::span(*range),
            account_offset as int,
            write_version_current as int,
            write_version,
        ),
        new_end == range.end + sizes.msg_size_new - sizes.msg_size_current + sizes.wv_size_new
            - sizes.wv_size_current,
    ensures
        ({
            let head = buffer@.take(range.start as int) + write_version::splice(
                bytes_at(buffer@, decode::span(*range)),
                account_offset - range.start,
                write_version_current - range.start,
                write_version,
            );
            &&& head.len() == new_end
            &&& r@ == if head.len() < buffer@.len() {
                head + buffer@.skip(head.len() as int)
            } else {
                head
            }
        }),
{
    let ghost whole = buffer@;
    let ghost payload = bytes_at(whole, decode::span(*range));
    let ghost a = account_offset - range.start;
    let ghost w = write_version_current - range.start;
    let mut spliced: Vec<u8> = Vec::new();
    extend(&mut spliced, buffer.as_slice(), 0, account_offset);
    codec::encode_varint(sizes.msg_size, &mut spliced);
    extend(
        &mut spliced,
        buffer.as_slice(),
        account_offset + sizes.msg_size_current,
        write_version_current,
    );
    codec::encode_varint(write_version, &mut spliced);
    extend(
        &mut spliced,
        buffer.as_slice(),
        write_version_current + sizes.wv_size_current,
        range.end,
    );
    proof {
        let n0 = sizes.msg_size_current as int;
        let size = sizes.wv_size_current as int;
        assert(whole.subrange(0, account_offset as int) =~= whole.take(range.start as int)
            + payload.take(a));
        assert(whole.subrange(account_offset + n0, write_version_current as int)
            =~= payload.subrange(a + n0, w));
        assert(whole.subrange(write_version_current + size, range.end as int) =~= payload.skip(
            w + size,
        ));
        assert(spliced@ =~= whole.take(range.start as int) + write_version::splice(
            payload,
            a,
            w,
            write_version,
        ));
    }
    if new_end < buffer.len() {
        extend(&mut spliced, buffer.as_slice(), new_end, buffer.len());
        assert(whole.subrange(new_end as int, whole.len() as int) =~= whole.skip(new_end as int));
    }
    spliced
}

impl MessageAccountView {
    /// Which parser made the message.
    pub open spec fn encoding(self) -> MessageParserEncoding {
        match self {
            MessageAccountView::Limited { .. } => MessageParserEncoding::Limited,
            MessageAccountView::Prost { .. } => MessageParserEncoding::Prost,
        }
    }

    /// What the message costs to keep.
    pub open spec fn size(self) -> nat {
        match self {
            MessageAccountView::Limited { buffer, .. } => buffer.len() + 150,
            MessageAccountView::Prost { size, .. } => size,
        }
    }
}

impl MessageAccount {
    /// Which parser made the message.
    pub fn encoding(&self) -> (r: MessageParserEncoding)
        ensures
            r == self@.encoding(),
    {
        match self {
            MessageAccount::Limited { .. } => MessageParserEncoding::Limited,
            MessageAccount::Prost { .. } => MessageParserEncoding::Prost,
        }
    }

    /// The slot of the update.
    pub fn slot(&self) -> (r: Slot)
        ensures
            r == self@.content().slot,
    {
        match self {
            MessageAccount::Limited { slot, .. } => *slot,
            MessageAccount::Prost { slot, .. } => *slot,
        }
    }

    /// When the update was made.
    pub fn created_at(&self) -> (r: MessageBlockCreatedAt)
        ensures
            r == crate::message::created_at_with(self@.encoding(), self@.created_at()),
    {
        match self {
            MessageAccount::Limited { created_at, .. } => MessageBlockCreatedAt::Limited(
                *created_at,
            ),
            MessageAccount::Prost { created_at, .. } => MessageBlockCreatedAt::Prost(*created_at),
        }
    }

    /// What the message costs to keep.
    pub fn size(&self) -> (r: usize)
        requires
            self@.size() <= usize::MAX,
        ensures
            r == self@.size(),
    {
        match self {
            MessageAccount::Limited { buffer, .. } => buffer.len() + PUBKEY_BYTES * 2 + 86,
            MessageAccount::Prost { size, .. } => *size,
        }
    }

    /// The account.
    pub fn pubkey(&self) -> (r: &Pubkey)
        ensures
            r@ == self@.content().info.pubkey,
    {
        match self {
            MessageAccount::Limited { pubkey, .. } => pubkey,
            MessageAccount::Prost { pubkey, .. } => pubkey,
        }
    }

    /// The program that owns the account.
    pub fn owner(&self) -> (r: &Pubkey)
        ensures
            r@ == self@.content().info.owner,
    {
        match self {
            MessageAccount::Limited { owner, .. } => owner,
            MessageAccount::Prost { owner, .. } => owner,
        }
    }

    /// The lamports of the account.
    pub fn lamports(&self) -> (r: u64)
        ensures
            r == self@.content().info.lamports,
    {
        match self {
            MessageAccount::Limited { lamports, .. } => *lamports,
            MessageAccount::Prost { account, .. } => account.lamports,
        }
    }

    /// Whether the account is a program.
    pub fn executable(&self) -> (r: bool)
        ensures
            r == self@.content().info.executable,
    {
        match self {
            MessageAccount::Limited { executable, .. } => *executable,
            MessageAccount::Prost { account, .. } => account.executable,
        }
    }

    /// The epoch at which the account next owes rent.
    pub fn rent_epoch(&self) -> (r: Epoch)
        ensures
            r == self@.content().info.rent_epoch,
    {
        match self {
            MessageAccount::Limited { rent_epoch, .. } => *rent_epoch,
            MessageAccount::Prost { account, .. } => account.rent_epoch,
        }
    }

    /// The data of the account.
    pub fn data(&self) -> (r: &[u8])
        requires
            self@.in_bounds(),
        ensures
            r@ == self@.content().info.data,
    {
        match self {
            MessageAccount::Limited { data, buffer, .. } => vstd::slice::slice_subrange(
                buffer.as_slice(),
                data.start,
                data.end,
            ),
            MessageAccount::Prost { account, .. } => account.data.as_slice(),
        }
    }

    /// The write version of the account, 0 where the update holds none.
    pub fn write_version(&self) -> (r: u64)
        requires
            self@.in_bounds(),
        ensures
            r == self@.content().info.write_version,
    {
        match self {
            MessageAccount::Limited { write_version, buffer, .. } => {
                if *write_version == usize::MAX {
                    return 0;
                }
                let (value, _) = varint_at(buffer.as_slice(), *write_version);
                value
            },
            MessageAccount::Prost { account, .. } => account.write_version,
        }
    }

    /// The signature of the transaction that wrote the account.
    pub fn txn_signature(&self) -> (r: Option<&[u8]>)
        requires
            self@.in_bounds(),
        ensures
            self@.content().info.txn_signature == match r {
                Some(s) => Some(s@),
                None => None,
            },
    {
        match self {
            MessageAccount::Limited { txn_signature_offset, buffer, .. } => {
                assert(buffer@.len() == buffer.len());
                match txn_signature_offset {
                    Some(offset) => Some(
                        vstd::slice::slice_subrange(buffer.as_slice(), *offset, *offset + 64),
                    ),
                    None => None,
                }
            },
            MessageAccount::Prost { account, .. } => match &account.txn_signature {
                Some(signature) => Some(signature.as_slice()),
                None => None,
            },
        }
    }

    /// Whether there is a signature of a transaction that wrote the account.
    pub fn nonempty_txn_signature(&self) -> (r: bool)
        ensures
            r == (self@.content().info.txn_signature is Some),
    {
        match self {
            MessageAccount::Limited { txn_signature_offset, .. } => txn_signature_offset.is_some(),
            MessageAccount::Prost { account, .. } => account.txn_signature.is_some(),
        }
    }

    /// Replaces the write version.
    #[verifier::rlimit(50)]
    #[verifier::spinoff_prover]
    pub fn update_write_version(&mut self, write_version: u64)
        requires
            old(self)@.decoded(),
            old(self)@.replaceable(write_version),
        ensures
            final(self)@ == updated(old(self)@, write_version),
    {
        match self {
            MessageAccount::Limited {
                buffer,
                range,
                account_offset,
                write_version: write_version_current,
                data,
                txn_signature_offset,
                ..
            } => {
                proof {
                    lemma_decoded_points(
                        old(self)@->fields,
                        old(self)@->Limited_created_at,
                        old(self)@->buffer,
                        old(self)@->range,
                    );
                }
                let sizes = splice_sizes(
                    buffer,
                    range,
                    *account_offset,
                    *write_version_current,
                    write_version,
                );
                let write_version_new: usize = *write_version_current + sizes.msg_size_new
                    - sizes.msg_size_current;
                let new_end: usize = range.end + sizes.msg_size_new - sizes.msg_size_current
                    + sizes.wv_size_new - sizes.wv_size_current;
                let spliced = splice_buffer(
                    buffer,
                    range,
                    *account_offset,
                    *write_version_current,
                    write_version,
                    &sizes,
                    new_end,
                );
                *buffer = spliced;

                // the places of what is in the update
                range.end = new_end;
                data.start = data.start + sizes.msg_size_new - sizes.msg_size_current;
                data.end = data.end + sizes.msg_size_new - sizes.msg_size_current;
                if data.start > write_version_new {
                    data.start = data.start + sizes.wv_size_new - sizes.wv_size_current;
                    data.end = data.end + sizes.wv_size_new - sizes.wv_size_current;
                }
                if let Some(offset) = txn_signature_offset {
                    *offset = *offset + sizes.msg_size_new - sizes.msg_size_current;
                    if *offset > write_version_new {
                        *offset = *offset + sizes.wv_size_new - sizes.wv_size_current;
                    }
                }
                *write_version_current = write_version_new;
            },
            MessageAccount::Prost { account, size, .. } => {
                proof {
                    wire::lemma_varint_len(write_version);
                    wire::lemma_varint_len(account.write_version);
                }
                *size = *size + codec::encoded_len_varint(write_version)
                    - codec::encoded_len_varint(account.write_version);
                account.write_version = write_version;
            },
        }
    }
}

// ---------------------------------------------------------------------------------------------
// Laws
// ---------------------------------------------------------------------------------------------

/// Where the splice of `v` moves the places of the update `s`.
pub open spec fn splice_move(s: Seq<u8>, a: int, w: int, v: u64) -> spec_fn(nat) -> nat {
    let d1 = write_version::splice_shift_before(s, a, w, v);
    let d2 = write_version::splice_shift_after(s, w, v);
    |x: nat|
        if x <= a {
            x
        } else if x <= w {
            (x + d1) as nat
        } else {
            (x + d1 + d2) as nat
        }
}

/// A run of bytes that lies apart from the length prefix and from the write version is moved, and
/// not changed, by the splice.
proof fn lemma_splice_run(s: Seq<u8>, a: int, w: int, v: u64, x: nat, y: nat)
    requires
        write_version::splice_points(s, a, w),
        a < x <= y <= s.len(),
        a + wire::varint(s.skip(a))->Some_0.1 <= x,
        y <= w || w + wire::varint(s.skip(w))->Some_0.1 <= x,
    ensures
        ({
            let t = write_version::splice(s, a, w, v);
            let d1 = write_version::splice_shift_before(s, a, w, v);
            let d2 = write_version::splice_shift_after(s, w, v);
            let d = if x > w {
                d1 + d2
            } else {
                d1
            };
            &&& 0 <= x + d <= y + d <= t.len()
            &&& t.subrange(x + d, y + d) == s.subrange(x as int, y as int)
        }),
{
    let t = write_version::splice(s, a, w, v);
    let d1 = write_version::splice_shift_before(s, a, w, v);
    let d2 = write_version::splice_shift_after(s, w, v);
    let d = if x > w {
        d1 + d2
    } else {
        d1
    };
    wire::lemma_varint_bounds(s.skip(w));
    assert(t.subrange(x + d, y + d) =~= s.subrange(x as int, y as int));
}

/// A place that is moved like the update that it lies in is moved as the message says.
proof fn lemma_run_in_buffer(
    buffer: Seq<u8>,
    range: Span,
    buffer1: Seq<u8>,
    range1: Span,
    x: int,
    y: int,
    x1: int,
    y1: int,
)
    requires
        range.start <= range.end <= buffer.len(),
        range1.start <= range1.end <= buffer1.len(),
        0 <= x <= y <= range.end - range.start,
        0 <= x1 <= y1 <= range1.end - range1.start,
        bytes_at(buffer, range).subrange(x, y) == bytes_at(buffer1, range1).subrange(x1, y1),
    ensures
        buffer.subrange(range.start + x, range.start + y) == buffer1.subrange(
            range1.start + x1,
            range1.start + y1,
        ),
{
    assert(bytes_at(buffer, range).subrange(x, y) =~= buffer.subrange(
        range.start + x,
        range.start + y,
    ));
    assert(bytes_at(buffer1, range1).subrange(x1, y1) =~= buffer1.subrange(
        range1.start + x1,
        range1.start + y1,
    ));
}

/// The bytes of the updated message at its range are the splice.
proof fn lemma_updated_payload(m: MessageAccountView, v: u64)
    requires
        m is Limited,
        m.decoded(),
        m.replaceable(v),
    ensures
        ({
            let range = m->range;
            let u = updated(m, v);
            let payload = bytes_at(m->buffer, range);
            let a = m->fields.account - range.start;
            let w = write_version::version_place(m->fields) - range.start;
            let t = write_version::splice(payload, a, w, v);
            &&& u->range.start == range.start
            &&& u->range.start <= u->range.end <= u->buffer.len()
            &&& bytes_at(u->buffer, u->range) == t
            &&& write_version::splice_points(payload, a, w)
            &&& payload_account(payload) is Some
            &&& payload_account(t) == Some(
                relocation::relocate_account(
                    splice_move(payload, a, w, v),
                    payload_account(payload)->Some_0,
                ),
            )
        }),
{
    let range = m->range;
    let buffer = m->buffer;
    let fields = m->fields;
    let payload = bytes_at(buffer, range);
    let a = fields.account - range.start;
    let w = write_version::version_place(fields) - range.start;
    lemma_decoded_points(fields, m.created_at(), buffer, range);
    let t = write_version::splice(payload, a, w, v);
    let u = updated(m, v);
    let head = buffer.take(range.start as int) + t;
    assert(bytes_at(u->buffer, u->range) =~= t);
    reveal(payload_account);
    let m0 = UpdateOneofLimitedDecodeAccount::empty();
    write_version::lemma_update_places(m0, payload, 0);
    let f = splice_move(payload, a, w, v);
    reveal(write_version::moves);
    assert(write_version::moves(f, payload, 0, a, w, v));
    write_version::lemma_splice_fields(f, m0, payload, 0, v);
    fields::lemma_fields_bounds::<UpdateOneofLimitedDecodeAccount>(m0, payload, 0, 0);
}

/// Replacing the write version replaces nothing else: the updated message is again what its bytes
/// decode to, and says the same but for the write version.
#[verifier::rlimit(50)]
#[verifier::spinoff_prover]
pub proof fn law_update_write_version(m: MessageAccountView, v: u64)
    requires
        m.decoded(),
        m.placed(),
        m.replaceable(v),
    ensures
        updated(m, v).decoded(),
        updated(m, v).placed(),
        updated(m, v).in_bounds(),
        updated(m, v).created_at() == m.created_at(),
        updated(m, v).content() == (AccountContent {
            info: AccountInfoView { write_version: v, ..m.content().info },
            ..m.content()
        }),
{
    if m is Limited {
        let range = m->range;
        let buffer = m->buffer;
        let fields = m->fields;
        let payload = bytes_at(buffer, range);
        let a = fields.account - range.start;
        let w = write_version::version_place(fields) - range.start;
        let u = updated(m, v);
        let t = bytes_at(u->buffer, u->range);
        let pm = payload_account(payload)->Some_0;
        let f = splice_move(payload, a, w, v);
        lemma_updated_payload(m, v);
        lemma_payload_places(payload);
        let um = payload_account(t)->Some_0;
        // the data
        if pm.data.start < pm.data.end {
            lemma_splice_run(payload, a, w, v, pm.data.start, pm.data.end);
            lemma_run_in_buffer(
                buffer,
                range,
                u->buffer,
                u->range,
                pm.data.start as int,
                pm.data.end as int,
                um.data.start as int,
                um.data.end as int,
            );
        } else {
            assert(bytes_at(buffer, fields.data) =~= bytes_at(u->buffer, u->fields.data));
            assert(bytes_at(t, um.data) =~= bytes_at(u->buffer, u->fields.data));
        }
        // the signature
        if let Some(x) = pm.txn_signature {
            lemma_splice_run(payload, a, w, v, x, x + 64);
            lemma_run_in_buffer(
                buffer,
                range,
                u->buffer,
                u->range,
                x as int,
                (x + 64) as int,
                um.txn_signature->Some_0 as int,
                (um.txn_signature->Some_0 + 64) as int,
            );
        }
        // the write version
        lemma_spliced_write_version(payload, a, w, v);
        lemma_varint_in_range(u->buffer, u->range, write_version::version_place(um) as int);
    }
}

/// Whether the machine can hold the message, however long its write version is.
pub open spec fn has_room(m: MessageAccountView) -> bool {
    match m {
        MessageAccountView::Limited { buffer, .. } => buffer.len() + 40 <= usize::MAX,
        MessageAccountView::Prost { size, .. } => size + 20 <= usize::MAX,
    }
}

/// Whether the data of the message is where its bytes say, also where there is none.
pub open spec fn as_read(m: MessageAccountView) -> bool {
    match m {
        MessageAccountView::Limited { fields, buffer, range, .. } => {
            let pm = payload_account(bytes_at(buffer, range))->Some_0;
            fields.data.start == pm.data.start + range.start && fields.data.end == pm.data.end
                + range.start
        },
        MessageAccountView::Prost { .. } => true,
    }
}

/// A place that was moved once can be moved again, as far as it would be moved at once.
proof fn lemma_moved_twice(m: MessageAccountView, v1: u64, v2: u64, x: nat)
    requires
        m is Limited,
        m.decoded(),
        has_room(m),
        m.replaceable(v1),
        m.replaceable(v2),
        ({
            let version = write_version::version_place(m->fields);
            let size = wire::varint(
                bytes_at(m->buffer, m->range).skip(version - m->range.start),
            )->Some_0.1;
            x <= version || version + size <= x
        }),
        ({
            let payload = bytes_at(m->buffer, m->range);
            let a = m->fields.account - m->range.start;
            let w = write_version::version_place(m->fields) - m->range.start;
            0 <= x + write_version::splice_shift_before(payload, a, w, v1) && 0 <= x
                + write_version::splice_shift_before(payload, a, w, v2)
        }),
    ensures
        ({
            let range = m->range;
            let payload = bytes_at(m->buffer, range);
            let a = m->fields.account - range.start;
            let version = write_version::version_place(m->fields);
            let w = version - range.start;
            let d1 = write_version::splice_shift_before(payload, a, w, v1);
            let d2 = write_version::splice_shift_after(payload, w, v1);
            let t = write_version::splice(payload, a, w, v1);
            let e1 = write_version::splice_shift_before(t, a, w + d1, v2);
            let e2 = write_version::splice_shift_after(t, w + d1, v2);
            let y = moved_by(x, version, d1, d2);
            &&& 0 <= y
            &&& 0 <= version + d1
            &&& 0 <= y + e1
            &&& 0 <= moved_by(y as nat, (version + d1) as nat, e1, e2)
        }),
{
    wire::lemma_varint_len(v1);
    wire::lemma_varint_len(v2);
    let range = m->range;
    let payload = bytes_at(m->buffer, range);
    let a = m->fields.account - range.start;
    let version = write_version::version_place(m->fields);
    let w = version - range.start;
    lemma_payload_places(payload);
    write_version::lemma_splice_twice(payload, a, w, v1, v2);
    write_version::lemma_splice_account(payload, a, w, v1);
    write_version::lemma_splice_account(payload, a, w, v2);
    let len1 = write_version::spliced_len(payload, a, w, v1) as nat;
    let len2 = write_version::spliced_len(payload, a, w, v2) as nat;
    lemma_varint_gap(len1, len1);
    lemma_varint_gap(len2, len2);
    wire::lemma_varint_bounds(payload.skip(a));
    wire::lemma_varint_bounds(payload.skip(w));
}

/// A message whose write version was replaced can have another one.
#[verifier::rlimit(50)]
#[verifier::spinoff_prover]
proof fn lemma_replaceable_again(m: MessageAccountView, v1: u64, v2: u64)
    requires
        m.decoded(),
        m.placed(),
        as_read(m),
        has_room(m),
        m.replaceable(v1),
        m.replaceable(v2),
    ensures
        updated(m, v1).replaceable(v2),
{
    wire::lemma_varint_len(v1);
    if m is Limited {
        let payload = bytes_at(m->buffer, m->range);
        let a = m->fields.account - m->range.start;
        let w = write_version::version_place(m->fields) - m->range.start;
        lemma_updated_payload(m, v1);
        lemma_payload_places(payload);
        write_version::lemma_splice_twice(payload, a, w, v1, v2);
        let len1 = write_version::spliced_len(payload, a, w, v1) as nat;
        lemma_varint_gap(len1, len1);
        lemma_moved_twice(m, v1, v2, m->fields.data.start);
        if let Some(x) = m->fields.txn_signature {
            lemma_moved_twice(m, v1, v2, x);
        }
    } else {
        wire::lemma_varint_len(m->Prost_account.write_version);
    }
}

/// The last of two write versions wins, and leaves no trace of the other: the bytes of the update and
/// what the message says are those of a message in which only the last one was put.
#[verifier::rlimit(50)]
#[verifier::spinoff_prover]
pub proof fn law_last_write_version(m: MessageAccountView, v1: u64, v2: u64)
    requires
        m.decoded(),
        m.placed(),
        as_read(m),
        has_room(m),
        m.replaceable(v1),
        m.replaceable(v2),
    ensures
        updated(m, v1).replaceable(v2),
        ({
            let twice = updated(updated(m, v1), v2);
            let once = updated(m, v2);
            &&& twice.content() == once.content()
            &&& twice.content().info.write_version == v2
            &&& twice.created_at() == once.created_at()
            &&& match m {
                MessageAccountView::Limited { .. } => {
                    &&& twice->range == once->range
                    &&& bytes_at(twice->buffer, twice->range) == bytes_at(once->buffer, once->range)
                },
                MessageAccountView::Prost { .. } => twice == once,
            }
        }),
{
    lemma_replaceable_again(m, v1, v2);
    law_update_write_version(m, v1);
    law_update_write_version(m, v2);
    law_update_write_version(updated(m, v1), v2);
    if m is Limited {
        let payload = bytes_at(m->buffer, m->range);
        let a = m->fields.account - m->range.start;
        let w = write_version::version_place(m->fields) - m->range.start;
        lemma_updated_payload(m, v1);
        lemma_updated_payload(m, v2);
        lemma_updated_payload(updated(m, v1), v2);
        write_version::lemma_splice_twice(payload, a, w, v1, v2);
    }
}

/// Whether the length of the account at `a` is written as short as it can be.
pub open spec fn short_prefix(payload: Seq<u8>, a: int) -> bool {
    wire::varint(payload.skip(a)) matches Some((len, n)) && n == wire::varint_bytes(len as nat).len()
}

/// A number that is little less takes at most one byte less.
proof fn lemma_varint_gap(x: nat, y: nat)
    requires
        y <= x + 10,
    ensures
        wire::varint_bytes(y).len() <= wire::varint_bytes(x).len() + 1,
        1 <= wire::varint_bytes(x).len(),
    decreases y,
{
    if y >= 0x80 {
        assert(wire::varint_bytes(y).len() == 1 + wire::varint_bytes(y / 128).len());
        if x >= 0x80 {
            assert(wire::varint_bytes(x).len() == 1 + wire::varint_bytes(x / 128).len());
            assert(y / 128 <= x / 128 + 1) by (nonlinear_arith)
                requires
                    y <= x + 10,
            ;
            lemma_varint_gap(x / 128, y / 128);
        } else {
            assert(y / 128 < 0x80) by (nonlinear_arith)
                requires
                    y < 0x80 + 10,
            ;
        }
    }
}

/// The write version of a message whose places are those of its bytes can be replaced.
pub proof fn lemma_replaceable(m: MessageAccountView, v: u64)
    requires
        m is Limited,
        m.decoded(),
        m.placed(),
        m->fields.account < write_version::version_place(m->fields),
        m->buffer.len() + 20 <= usize::MAX,
        1 <= m->range.start,
        ({
            let payload = bytes_at(m->buffer, m->range);
            let pm = payload_account(payload)->Some_0;
            &&& m->fields.data.start == pm.data.start + m->range.start
            &&& pm.data.start < pm.data.end || short_prefix(payload, pm.account as int)
                || wire::varint(payload.skip(pm.account as int))->Some_0.1 <= m->range.start + 1
        }),
    ensures
        m.replaceable(v),
{
    let range = m->range;
    let payload = bytes_at(m->buffer, range);
    let pm = payload_account(payload)->Some_0;
    let a = pm.account as int;
    let w = write_version::version_place(pm) as int;
    lemma_payload_places(payload);
    wire::lemma_varint_len(v);
    wire::lemma_varint_bounds(payload.skip(a));
    wire::lemma_varint_bounds(payload.skip(w));
    let (len, n0) = wire::varint(payload.skip(a))->Some_0;
    write_version::lemma_splice_account(payload, a, w, v);
    let len1 = write_version::spliced_len(payload, a, w, v) as nat;
    lemma_varint_gap(len1, len as nat);
    lemma_varint_gap(len1, len1);
}

/// There is `v` where the write version was.
proof fn lemma_spliced_write_version(s: Seq<u8>, a: int, w: int, v: u64)
    requires
        write_version::splice_points(s, a, w),
    ensures
        ({
            let t = write_version::splice(s, a, w, v);
            let w1 = w + write_version::splice_shift_before(s, a, w, v);
            &&& 0 <= w1 <= t.len()
            &&& wire::varint(t.skip(w1)) is Some
            &&& wire::varint(t.skip(w1))->Some_0.0 == v
        }),
{
    let t = write_version::splice(s, a, w, v);
    let w1 = w + write_version::splice_shift_before(s, a, w, v);
    let rest = s.skip(w + wire::varint(s.skip(w))->Some_0.1);
    wire::lemma_varint_bounds(s.skip(w));
    assert(t.skip(w1) =~= wire::varint_bytes(v as nat) + rest);
    wire::lemma_varint_round_trip(v, rest);
}

/// With another write version a message costs as much more to keep as that is longer, encoded. One that
/// keeps its bytes grows where the new ones do not fit, and does not shrink.
pub proof fn law_updated_size(m: MessageAccountView, v: u64)
    requires
        m.decoded(),
        m.placed(),
        m.replaceable(v),
    ensures
        match m {
            MessageAccountView::Prost { account, .. } => {
                updated(m, v).size() + wire::varint_bytes(account.write_version as nat).len() == m.size()
                    + wire::varint_bytes(v as nat).len()
            },
            MessageAccountView::Limited { buffer, .. } => {
                &&& updated(m, v) is Limited
                &&& updated(m, v).size() >= m.size()
                &&& updated(m, v).size() > m.size() ==> updated(m, v)->Limited_range.end == updated(
                    m,
                    v,
                )->Limited_buffer.len()
            },
        },
{
}

} // verus!
