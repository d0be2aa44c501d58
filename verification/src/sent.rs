//! What a subscriber reads of an encoded update, field by field.
use vstd::prelude::*;

use crate::account;
use crate::account::{MessageAccount, MessageAccountView};
use crate::codec;
use crate::codec::Timestamp;
use crate::collections;
use crate::config::ConfigFilter;
use crate::decode;
use crate::encode;
use crate::error;
use crate::error::{DecodeErrorKind, Failure};
use crate::fields;
use crate::fields::FieldStep;
use crate::filter;
use crate::filter::{Filter, FilteredUpdate, FilteredUpdateType};
use crate::geyser::{
    AccountInfoView, AccountView, BlockMetaView, CommitmentLevel, EntryView, SlotStatus, SlotView,
    TransactionInfoView,
};
use crate::message::{
    MessageBlock, MessageBlockMetaView, MessageBlockView, MessageEntryView, MessageRef,
    MessageSlotView, MessageTransactionView,
};
use crate::round_trip;
use crate::round_trip::leads;
use crate::update;
use crate::wire;
use crate::wire::WireType;

verus! {

// ---------------------------------------------------------------------------------------------
// Reading the fields with one tag
// ---------------------------------------------------------------------------------------------

/// The values of the fields with one tag, in the order in which they come.
pub ghost struct Held {
    pub numbers: Seq<u64>,
    pub runs: Seq<Seq<u8>>,
}

/// One sequence after the other.
pub open spec fn joined<T>(a: Seq<T>, b: Seq<T>) -> Seq<T> {
    if b.len() == 0 {
        a
    } else if a.len() == 0 {
        b
    } else {
        a + b
    }
}

impl Held {
    /// No values.
    pub open spec fn nothing() -> Self {
        Held { numbers: Seq::empty(), runs: Seq::empty() }
    }

    /// These values and then those.
    pub open spec fn and(self, later: Held) -> Self {
        Held {
            numbers: joined(self.numbers, later.numbers),
            runs: joined(self.runs, later.runs),
        }
    }
}

/// A tag, and what fields with it held so far.
pub ghost struct Gathered {
    pub tag: u32,
    pub held: Held,
}

impl Gathered {
    /// With the values that came later.
    pub open spec fn with(self, later: Held) -> Self {
        Gathered { tag: self.tag, held: self.held.and(later) }
    }
}

/// Reads the fields with one tag and passes over all others.
pub struct Gather;

impl FieldStep for Gather {
    type M = Gathered;

    open spec fn step(
        m: Gathered,
        tag: u32,
        wire_type: WireType,
        rest: Seq<u8>,
        at: nat,
    ) -> Result<(Gathered, nat), Failure> {
        match wire_type {
            WireType::Varint => match wire::varint(rest) {
                None => Err(error::failure(DecodeErrorKind::InvalidVarint)),
                Some((v, n)) => Ok(
                    (
                        if tag == m.tag {
                            m.with(Held { numbers: seq![v], runs: Seq::empty() })
                        } else {
                            m
                        },
                        n,
                    ),
                ),
            },
            WireType::LengthDelimited => match wire::varint(rest) {
                None => Err(error::failure(DecodeErrorKind::InvalidVarint)),
                Some((len, n)) => if len > rest.len() - n {
                    Err(error::failure(DecodeErrorKind::BufferUnderflow))
                } else {
                    Ok(
                        (
                            if tag == m.tag {
                                m.with(
                                    Held {
                                        numbers: Seq::empty(),
                                        runs: seq![rest.subrange(n as int, n + len)],
                                    },
                                )
                            } else {
                                m
                            },
                            n + len as nat,
                        ),
                    )
                },
            },
            _ => match decode::skipped(wire_type, tag, rest) {
                Ok(n) => Ok((m, n)),
                Err(e) => Err(e),
            },
        }
    }

    proof fn lemma_step_bounds(m: Gathered, tag: u32, wire_type: WireType, rest: Seq<u8>, at: nat) {
        decode::lemma_value_bounds(wire_type, tag, rest, at);
    }
}

/// What the fields with the tag hold of a message, if it is one.
pub open spec fn held(s: Seq<u8>, tag: u32) -> Option<Held> {
    match fields::all_fields::<Gather>(Gathered { tag, held: Held::nothing() }, s) {
        Ok(m) => Some(m.held),
        Err(_) => None,
    }
}

/// The number with the tag: the last one counts, and zero where there is none.
pub open spec fn number(s: Seq<u8>, tag: u32) -> Option<u64> {
    match held(s, tag) {
        None => None,
        Some(h) => Some(
            if h.numbers.len() == 0 {
                0
            } else {
                h.numbers.last()
            },
        ),
    }
}

/// The number with the tag, where there is one.
pub open spec fn number_if_any(s: Seq<u8>, tag: u32) -> Option<Option<u64>> {
    match held(s, tag) {
        None => None,
        Some(h) => Some(
            if h.numbers.len() == 0 {
                None
            } else {
                Some(h.numbers.last())
            },
        ),
    }
}

/// The bytes with the tag: the last ones count, and none where there are none.
pub open spec fn bytes(s: Seq<u8>, tag: u32) -> Option<Seq<u8>> {
    match held(s, tag) {
        None => None,
        Some(h) => Some(
            if h.runs.len() == 0 {
                Seq::empty()
            } else {
                h.runs.last()
            },
        ),
    }
}

/// The bytes with the tag, where there are any.
pub open spec fn bytes_if_any(s: Seq<u8>, tag: u32) -> Option<Option<Seq<u8>>> {
    match held(s, tag) {
        None => None,
        Some(h) => Some(
            if h.runs.len() == 0 {
                None
            } else {
                Some(h.runs.last())
            },
        ),
    }
}

/// The bytes of each field with the tag.
pub open spec fn each(s: Seq<u8>, tag: u32) -> Option<Seq<Seq<u8>>> {
    match held(s, tag) {
        None => None,
        Some(h) => Some(h.runs),
    }
}

// ---------------------------------------------------------------------------------------------
// Runs of fields
// ---------------------------------------------------------------------------------------------

/// Whether the fields with the tag in `s` hold `h`, wherever `s` lies and whatever is around it.
pub open spec fn holds(s: Seq<u8>, tag: u32, h: Held) -> bool {
    forall|m: Gathered, at: nat|
        m.tag == tag ==> #[trigger] leads::<Gather>(m, at, s, m.with(h))
}

/// Fields that follow fields.
pub proof fn lemma_both(a: Seq<u8>, x: Held, b: Seq<u8>, y: Held, tag: u32)
    requires
        holds(a, tag, x),
        holds(b, tag, y),
    ensures
        holds(a + b, tag, x.and(y)),
{
    assert forall|m: Gathered, at: nat| m.tag == tag implies #[trigger] leads::<Gather>(
        m,
        at,
        a + b,
        m.with(x.and(y)),
    ) by {
        assert(leads::<Gather>(m, at, a, m.with(x)));
        assert(leads::<Gather>(m.with(x), at + a.len(), b, m.with(x).with(y)));
        round_trip::lemma_leads_on::<Gather>(m, at, a, m.with(x), b, m.with(x).with(y));
        assert(m.with(x).with(y).held.numbers =~= m.with(x.and(y)).held.numbers);
        assert(m.with(x).with(y).held.runs =~= m.with(x.and(y)).held.runs);
    }
}

/// No fields.
pub proof fn lemma_none(tag: u32)
    ensures
        holds(Seq::empty(), tag, Held::nothing()),
{
    assert forall|m: Gathered, at: nat| m.tag == tag implies #[trigger] leads::<Gather>(
        m,
        at,
        Seq::empty(),
        m.with(Held::nothing()),
    ) by {
        round_trip::lemma_leads_nowhere::<Gather>(m, at);
    }
}

/// What a field with a number holds.
pub open spec fn one_number(field: u32, v: u64, tag: u32) -> Held {
    if field == tag {
        Held { numbers: seq![v], runs: Seq::empty() }
    } else {
        Held::nothing()
    }
}

/// What a field with bytes holds.
pub open spec fn one_run(field: u32, p: Seq<u8>, tag: u32) -> Held {
    if field == tag {
        Held { numbers: Seq::empty(), runs: seq![p] }
    } else {
        Held::nothing()
    }
}

/// A number.
pub proof fn lemma_number(field: u32, v: u64, tag: u32)
    requires
        1 <= field <= wire::MAX_TAG,
    ensures
        holds(wire::varint_field(field, v), tag, one_number(field, v, tag)),
{
    let w = wire::varint_bytes(v as nat);
    assert forall|m: Gathered, at: nat| m.tag == tag implies #[trigger] leads::<Gather>(
        m,
        at,
        wire::varint_field(field, v),
        m.with(one_number(field, v, tag)),
    ) by {
        let m1 = m.with(one_number(field, v, tag));
        assert forall|t: Seq<u8>|
            #[trigger] Gather::step(
                m,
                field,
                WireType::Varint,
                w + t,
                at + wire::key_bytes(field, WireType::Varint).len(),
            ) == Ok::<(Gathered, nat), Failure>((m1, w.len())) by {
            wire::lemma_varint_round_trip(v, t);
        }
        round_trip::lemma_leads_field::<Gather>(m, at, field, WireType::Varint, w, m1);
    }
}

/// Bytes.
pub proof fn lemma_run(field: u32, p: Seq<u8>, tag: u32)
    requires
        1 <= field <= wire::MAX_TAG,
        p.len() <= u64::MAX,
    ensures
        holds(wire::bytes_field(field, p), tag, one_run(field, p, tag)),
{
    let w = wire::delimited(p);
    assert forall|m: Gathered, at: nat| m.tag == tag implies #[trigger] leads::<Gather>(
        m,
        at,
        wire::bytes_field(field, p),
        m.with(one_run(field, p, tag)),
    ) by {
        let m1 = m.with(one_run(field, p, tag));
        assert forall|t: Seq<u8>|
            #[trigger] Gather::step(
                m,
                field,
                WireType::LengthDelimited,
                w + t,
                at + wire::key_bytes(field, WireType::LengthDelimited).len(),
            ) == Ok::<(Gathered, nat), Failure>((m1, w.len())) by {
            round_trip::lemma_delimited(p, t, 0);
        }
        round_trip::lemma_leads_field::<Gather>(m, at, field, WireType::LengthDelimited, w, m1);
    }
}

/// What a field with a number holds where zero is left out.
pub open spec fn nonzero(field: u32, v: u64, tag: u32) -> Held {
    if v == 0 {
        Held::nothing()
    } else {
        one_number(field, v, tag)
    }
}

/// What a flag holds.
pub open spec fn flag(field: u32, v: bool, tag: u32) -> Held {
    if v {
        one_number(field, 1, tag)
    } else {
        Held::nothing()
    }
}

/// What a field with bytes holds where no bytes are left out.
pub open spec fn nonempty(field: u32, p: Seq<u8>, tag: u32) -> Held {
    if p.len() == 0 {
        Held::nothing()
    } else {
        one_run(field, p, tag)
    }
}

/// What a field with bytes holds, if it is there.
pub open spec fn any_run(field: u32, p: Option<Seq<u8>>, tag: u32) -> Held {
    match p {
        Some(p) => one_run(field, p, tag),
        None => Held::nothing(),
    }
}

/// What a field with a number holds, if it is there.
pub open spec fn any_number(field: u32, v: Option<u64>, tag: u32) -> Held {
    match v {
        Some(v) => one_number(field, v, tag),
        None => Held::nothing(),
    }
}

/// What fields with bytes hold.
pub open spec fn all_runs(field: u32, ps: Seq<Seq<u8>>, tag: u32) -> Held {
    if field == tag {
        Held { numbers: Seq::empty(), runs: ps }
    } else {
        Held::nothing()
    }
}

/// A number that is left out where it is zero.
pub proof fn lemma_nonzero(field: u32, v: u64, tag: u32)
    requires
        1 <= field <= wire::MAX_TAG,
    ensures
        holds(wire::varint_field_opt(field, v), tag, nonzero(field, v, tag)),
{
    lemma_none(tag);
    lemma_number(field, v, tag);
}

/// A flag that is left out where it is false.
pub proof fn lemma_flag(field: u32, v: bool, tag: u32)
    requires
        1 <= field <= wire::MAX_TAG,
    ensures
        holds(wire::bool_field_opt(field, v), tag, flag(field, v, tag)),
{
    lemma_none(tag);
    lemma_number(field, 1, tag);
}

/// Bytes that are left out where there are none.
pub proof fn lemma_nonempty(field: u32, p: Seq<u8>, tag: u32)
    requires
        1 <= field <= wire::MAX_TAG,
        p.len() <= u64::MAX,
    ensures
        holds(wire::bytes_field_opt(field, p), tag, nonempty(field, p, tag)),
{
    lemma_none(tag);
    lemma_run(field, p, tag);
}

/// Bytes that may be left out.
pub proof fn lemma_any_run(field: u32, p: Option<Seq<u8>>, tag: u32)
    requires
        1 <= field <= wire::MAX_TAG,
        p matches Some(p) ==> p.len() <= u64::MAX,
    ensures
        holds(encode::optional_field(field, p), tag, any_run(field, p, tag)),
{
    lemma_none(tag);
    if let Some(p) = p {
        lemma_run(field, p, tag);
    }
}

/// A number that may be left out.
pub proof fn lemma_any_number(field: u32, v: Option<u64>, tag: u32)
    requires
        1 <= field <= wire::MAX_TAG,
    ensures
        holds(encode::optional_varint(field, v), tag, any_number(field, v, tag)),
{
    lemma_none(tag);
    if let Some(v) = v {
        lemma_number(field, v, tag);
    }
}

/// Bytes in many fields.
pub proof fn lemma_all_runs(field: u32, ps: Seq<Seq<u8>>, tag: u32)
    requires
        1 <= field <= wire::MAX_TAG,
        encode::repeated_field(field, ps).len() <= u64::MAX,
    ensures
        holds(encode::repeated_field(field, ps), tag, all_runs(field, ps, tag)),
    decreases ps.len(),
{
    lemma_none(tag);
    if ps.len() > 0 {
        let before = ps.drop_last();
        lemma_all_runs(field, before, tag);
        lemma_run(field, ps.last(), tag);
        lemma_both(
            encode::repeated_field(field, before),
            all_runs(field, before, tag),
            wire::bytes_field(field, ps.last()),
            one_run(field, ps.last(), tag),
            tag,
        );
        assert(all_runs(field, before, tag).and(one_run(field, ps.last(), tag)).runs =~= all_runs(
            field,
            ps,
            tag,
        ).runs);
    } else {
        assert(all_runs(field, ps, tag).runs =~= Held::nothing().runs);
    }
}

/// A run of fields that is all there is.
pub proof fn lemma_held(s: Seq<u8>, tag: u32, h: Held)
    requires
        holds(s, tag, h),
    ensures
        held(s, tag) == Some(h),
{
    let m = Gathered { tag, held: Held::nothing() };
    assert(leads::<Gather>(m, 0, s, m.with(h)));
    round_trip::lemma_leads_all::<Gather>(m, s, m.with(h));
    assert(m.with(h).held.numbers =~= h.numbers);
    assert(m.with(h).held.runs =~= h.runs);
}

/// The number that the message with the tag holds, if there is one.
pub open spec fn number_inside(s: Seq<u8>, tag: u32) -> Option<Option<u64>> {
    match bytes_if_any(s, tag) {
        None => None,
        Some(None) => Some(None),
        Some(Some(inner)) => match number(inner, 1) {
            None => None,
            Some(v) => Some(Some(v)),
        },
    }
}

/// The bytes that the message with the tag holds, if there is one.
pub open spec fn bytes_inside(s: Seq<u8>, tag: u32) -> Option<Option<Seq<u8>>> {
    match bytes_if_any(s, tag) {
        None => None,
        Some(None) => Some(None),
        Some(Some(inner)) => match bytes(inner, 1) {
            None => None,
            Some(v) => Some(Some(v)),
        },
    }
}

/// A message with one number in it.
proof fn lemma_number_message(v: u64)
    ensures
        number(wire::varint_field_opt(1, v), 1) == Some(v),
{
    lemma_nonzero(1, v, 1);
    lemma_held(wire::varint_field_opt(1, v), 1, nonzero(1, v, 1));
}

/// A message with bytes in it.
proof fn lemma_bytes_message(p: Seq<u8>)
    requires
        p.len() <= u64::MAX,
    ensures
        bytes(wire::bytes_field_opt(1, p), 1) == Some(p),
{
    lemma_nonempty(1, p, 1);
    lemma_held(wire::bytes_field_opt(1, p), 1, nonempty(1, p, 1));
    if p.len() == 0 {
        assert(p =~= Seq::<u8>::empty());
    }
}

// ---------------------------------------------------------------------------------------------
// The fields of each message
// ---------------------------------------------------------------------------------------------

/// What the fields with the tag hold.
spec fn slot_held(m: SlotView, tag: u32) -> Held {
    nonzero(1, m.slot, tag)
        .and(any_number(2, m.parent, tag))
        .and(nonzero(3, m.status as u64, tag))
        .and(
            any_run(
                4,
                (match m.dead_error { Some(e) => Some(vstd::utf8::encode_utf8(e)), None => None }),
                tag,
            ),
        )
}

proof fn lemma_slot(m: SlotView, tag: u32)
    requires
        encode::slot_bytes(m).len() <= u64::MAX,
    ensures
        held(encode::slot_bytes(m), tag) == Some(slot_held(m, tag)),
{
    lemma_nonzero(1, m.slot, tag);
    lemma_any_number(2, m.parent, tag);
    lemma_nonzero(3, m.status as u64, tag);
    lemma_any_run(
        4,
        (match m.dead_error { Some(e) => Some(vstd::utf8::encode_utf8(e)), None => None }),
        tag,
    );
    let s1 = wire::varint_field_opt(1, m.slot);
    let h1 = nonzero(1, m.slot, tag);
    lemma_both(s1, h1, encode::optional_varint(2, m.parent), any_number(2, m.parent, tag), tag);
    let s2 = s1 + encode::optional_varint(2, m.parent);
    let h2 = h1.and(any_number(2, m.parent, tag));
    lemma_both(
        s2,
        h2,
        wire::varint_field_opt(3, m.status as u64),
        nonzero(3, m.status as u64, tag),
        tag,
    );
    let s3 = s2 + wire::varint_field_opt(3, m.status as u64);
    let h3 = h2.and(nonzero(3, m.status as u64, tag));
    lemma_both(
        s3,
        h3,
        encode::optional_field(
            4,
            (match m.dead_error { Some(e) => Some(vstd::utf8::encode_utf8(e)), None => None }),
        ),
        any_run(
            4,
            (match m.dead_error { Some(e) => Some(vstd::utf8::encode_utf8(e)), None => None }),
            tag,
        ),
        tag,
    );
    let s4 = s3 + encode::optional_field(
        4,
        (match m.dead_error { Some(e) => Some(vstd::utf8::encode_utf8(e)), None => None }),
    );
    let h4 = h3.and(
        any_run(
            4,
            (match m.dead_error { Some(e) => Some(vstd::utf8::encode_utf8(e)), None => None }),
            tag,
        ),
    );
    assert(s4 == encode::slot_bytes(m));
    lemma_held(s4, tag, h4);
}

/// A slot update holds the slot, its parent, its status and what killed it.
pub proof fn law_slot_fields(m: SlotView)
    requires
        encode::slot_bytes(m).len() <= u64::MAX,
    ensures
        ({
            let s = encode::slot_bytes(m);
            &&& number(s, 1) == Some(m.slot)
            &&& number_if_any(s, 2) == Some(m.parent)
            &&& number(s, 3) == Some(m.status as u64)
            &&& bytes_if_any(s, 4) == Some(match m.dead_error {
 Some(e) => Some(vstd::utf8::encode_utf8(e)),
 None => None,
 })
        }),
{
    lemma_slot(m, 1);
    lemma_slot(m, 2);
    lemma_slot(m, 3);
    lemma_slot(m, 4);
}

/// What the fields with the tag hold.
spec fn account_info_held(m: AccountInfoView, tag: u32) -> Held {
    nonempty(1, m.pubkey, tag)
        .and(nonzero(2, m.lamports, tag))
        .and(nonempty(3, m.owner, tag))
        .and(flag(4, m.executable, tag))
        .and(nonzero(5, m.rent_epoch, tag))
        .and(nonempty(6, m.data, tag))
        .and(nonzero(7, m.write_version, tag))
        .and(any_run(8, m.txn_signature, tag))
}

proof fn lemma_account_info(m: AccountInfoView, tag: u32)
    requires
        encode::account_info_bytes(m).len() <= u64::MAX,
    ensures
        held(encode::account_info_bytes(m), tag) == Some(account_info_held(m, tag)),
{
    lemma_nonempty(1, m.pubkey, tag);
    lemma_nonzero(2, m.lamports, tag);
    lemma_nonempty(3, m.owner, tag);
    lemma_flag(4, m.executable, tag);
    lemma_nonzero(5, m.rent_epoch, tag);
    lemma_nonempty(6, m.data, tag);
    lemma_nonzero(7, m.write_version, tag);
    lemma_any_run(8, m.txn_signature, tag);
    let s1 = wire::bytes_field_opt(1, m.pubkey);
    let h1 = nonempty(1, m.pubkey, tag);
    lemma_both(s1, h1, wire::varint_field_opt(2, m.lamports), nonzero(2, m.lamports, tag), tag);
    let s2 = s1 + wire::varint_field_opt(2, m.lamports);
    let h2 = h1.and(nonzero(2, m.lamports, tag));
    lemma_both(s2, h2, wire::bytes_field_opt(3, m.owner), nonempty(3, m.owner, tag), tag);
    let s3 = s2 + wire::bytes_field_opt(3, m.owner);
    let h3 = h2.and(nonempty(3, m.owner, tag));
    lemma_both(s3, h3, wire::bool_field_opt(4, m.executable), flag(4, m.executable, tag), tag);
    let s4 = s3 + wire::bool_field_opt(4, m.executable);
    let h4 = h3.and(flag(4, m.executable, tag));
    lemma_both(s4, h4, wire::varint_field_opt(5, m.rent_epoch), nonzero(5, m.rent_epoch, tag), tag);
    let s5 = s4 + wire::varint_field_opt(5, m.rent_epoch);
    let h5 = h4.and(nonzero(5, m.rent_epoch, tag));
    lemma_both(s5, h5, wire::bytes_field_opt(6, m.data), nonempty(6, m.data, tag), tag);
    let s6 = s5 + wire::bytes_field_opt(6, m.data);
    let h6 = h5.and(nonempty(6, m.data, tag));
    lemma_both(
        s6,
        h6,
        wire::varint_field_opt(7, m.write_version),
        nonzero(7, m.write_version, tag),
        tag,
    );
    let s7 = s6 + wire::varint_field_opt(7, m.write_version);
    let h7 = h6.and(nonzero(7, m.write_version, tag));
    lemma_both(
        s7,
        h7,
        encode::optional_field(8, m.txn_signature),
        any_run(8, m.txn_signature, tag),
        tag,
    );
    let s8 = s7 + encode::optional_field(8, m.txn_signature);
    let h8 = h7.and(any_run(8, m.txn_signature, tag));
    assert(s8 == encode::account_info_bytes(m));
    lemma_held(s8, tag, h8);
}

/// An account holds each of its parts.
pub proof fn law_account_info_fields(m: AccountInfoView)
    requires
        encode::account_info_bytes(m).len() <= u64::MAX,
    ensures
        ({
            let s = encode::account_info_bytes(m);
            &&& bytes(s, 1) == Some(m.pubkey)
            &&& number(s, 2) == Some(m.lamports)
            &&& bytes(s, 3) == Some(m.owner)
            &&& number(s, 4) == Some(if m.executable { 1u64 } else { 0 })
            &&& number(s, 5) == Some(m.rent_epoch)
            &&& bytes(s, 6) == Some(m.data)
            &&& number(s, 7) == Some(m.write_version)
            &&& bytes_if_any(s, 8) == Some(m.txn_signature)
        }),
{
    lemma_account_info(m, 1);
    lemma_account_info(m, 2);
    lemma_account_info(m, 3);
    lemma_account_info(m, 4);
    lemma_account_info(m, 5);
    lemma_account_info(m, 6);
    lemma_account_info(m, 7);
    lemma_account_info(m, 8);
    if m.pubkey.len() == 0 {
        assert(m.pubkey =~= Seq::<u8>::empty());
    }
    if m.owner.len() == 0 {
        assert(m.owner =~= Seq::<u8>::empty());
    }
    if m.data.len() == 0 {
        assert(m.data =~= Seq::<u8>::empty());
    }
}

/// What the fields with the tag hold.
spec fn account_held(m: AccountView, tag: u32) -> Held {
    any_run(1, (match m.account { Some(a) => Some(encode::account_info_bytes(
        a,
    )), None => None }), tag).and(nonzero(2, m.slot, tag)).and(flag(3, m.is_startup, tag))
}

proof fn lemma_account(m: AccountView, tag: u32)
    requires
        encode::account_bytes(m).len() <= u64::MAX,
    ensures
        held(encode::account_bytes(m), tag) == Some(account_held(m, tag)),
{
    lemma_any_run(
        1,
        (match m.account { Some(a) => Some(encode::account_info_bytes(a)), None => None }),
        tag,
    );
    lemma_nonzero(2, m.slot, tag);
    lemma_flag(3, m.is_startup, tag);
    let s1 = encode::optional_field(
        1,
        (match m.account { Some(a) => Some(encode::account_info_bytes(a)), None => None }),
    );
    let h1 = any_run(
        1,
        (match m.account { Some(a) => Some(encode::account_info_bytes(a)), None => None }),
        tag,
    );
    lemma_both(s1, h1, wire::varint_field_opt(2, m.slot), nonzero(2, m.slot, tag), tag);
    let s2 = s1 + wire::varint_field_opt(2, m.slot);
    let h2 = h1.and(nonzero(2, m.slot, tag));
    lemma_both(s2, h2, wire::bool_field_opt(3, m.is_startup), flag(3, m.is_startup, tag), tag);
    let s3 = s2 + wire::bool_field_opt(3, m.is_startup);
    let h3 = h2.and(flag(3, m.is_startup, tag));
    assert(s3 == encode::account_bytes(m));
    lemma_held(s3, tag, h3);
}

/// An account update holds the account, its slot and whether it came at startup.
pub proof fn law_account_fields(m: AccountView)
    requires
        encode::account_bytes(m).len() <= u64::MAX,
    ensures
        ({
            let s = encode::account_bytes(m);
            &&& bytes_if_any(s, 1) == Some(match m.account {
 Some(a) => Some(encode::account_info_bytes(a)),
 None => None,
 })
            &&& number(s, 2) == Some(m.slot)
            &&& number(s, 3) == Some(if m.is_startup { 1u64 } else { 0 })
        }),
{
    lemma_account(m, 1);
    lemma_account(m, 2);
    lemma_account(m, 3);
}

/// What the fields with the tag hold.
spec fn transaction_info_held(m: TransactionInfoView, tag: u32) -> Held {
    nonempty(1, m.signature, tag)
        .and(flag(2, m.is_vote, tag))
        .and(any_run(3, (match m.transaction { Some(t) => Some(t.encoded), None => None }), tag))
        .and(any_run(4, (match m.meta { Some(m) => Some(m.encoded), None => None }), tag))
        .and(nonzero(5, m.index, tag))
}

proof fn lemma_transaction_info(m: TransactionInfoView, tag: u32)
    requires
        encode::transaction_info_bytes(m).len() <= u64::MAX,
    ensures
        held(encode::transaction_info_bytes(m), tag) == Some(transaction_info_held(m, tag)),
{
    lemma_nonempty(1, m.signature, tag);
    lemma_flag(2, m.is_vote, tag);
    lemma_any_run(3, (match m.transaction { Some(t) => Some(t.encoded), None => None }), tag);
    lemma_any_run(4, (match m.meta { Some(m) => Some(m.encoded), None => None }), tag);
    lemma_nonzero(5, m.index, tag);
    let s1 = wire::bytes_field_opt(1, m.signature);
    let h1 = nonempty(1, m.signature, tag);
    lemma_both(s1, h1, wire::bool_field_opt(2, m.is_vote), flag(2, m.is_vote, tag), tag);
    let s2 = s1 + wire::bool_field_opt(2, m.is_vote);
    let h2 = h1.and(flag(2, m.is_vote, tag));
    lemma_both(
        s2,
        h2,
        encode::optional_field(
            3,
            (match m.transaction { Some(t) => Some(t.encoded), None => None }),
        ),
        any_run(3, (match m.transaction { Some(t) => Some(t.encoded), None => None }), tag),
        tag,
    );
    let s3 = s2 + encode::optional_field(
        3,
        (match m.transaction { Some(t) => Some(t.encoded), None => None }),
    );
    let h3 = h2.and(
        any_run(3, (match m.transaction { Some(t) => Some(t.encoded), None => None }), tag),
    );
    lemma_both(
        s3,
        h3,
        encode::optional_field(4, (match m.meta { Some(m) => Some(m.encoded), None => None })),
        any_run(4, (match m.meta { Some(m) => Some(m.encoded), None => None }), tag),
        tag,
    );
    let s4 = s3 + encode::optional_field(
        4,
        (match m.meta { Some(m) => Some(m.encoded), None => None }),
    );
    let h4 = h3.and(any_run(4, (match m.meta { Some(m) => Some(m.encoded), None => None }), tag));
    lemma_both(s4, h4, wire::varint_field_opt(5, m.index), nonzero(5, m.index, tag), tag);
    let s5 = s4 + wire::varint_field_opt(5, m.index);
    let h5 = h4.and(nonzero(5, m.index, tag));
    assert(s5 == encode::transaction_info_bytes(m));
    lemma_held(s5, tag, h5);
}

/// A transaction holds each of its parts.
pub proof fn law_transaction_info_fields(m: TransactionInfoView)
    requires
        encode::transaction_info_bytes(m).len() <= u64::MAX,
    ensures
        ({
            let s = encode::transaction_info_bytes(m);
            &&& bytes(s, 1) == Some(m.signature)
            &&& number(s, 2) == Some(if m.is_vote { 1u64 } else { 0 })
            &&& bytes_if_any(s, 3) == Some(match m.transaction {
 Some(t) => Some(t.encoded),
 None => None,
 })
            &&& bytes_if_any(s, 4) == Some(match m.meta {
 Some(x) => Some(x.encoded),
 None => None,
 })
            &&& number(s, 5) == Some(m.index)
        }),
{
    lemma_transaction_info(m, 1);
    lemma_transaction_info(m, 2);
    lemma_transaction_info(m, 3);
    lemma_transaction_info(m, 4);
    lemma_transaction_info(m, 5);
    if m.signature.len() == 0 {
        assert(m.signature =~= Seq::<u8>::empty());
    }
}

/// What the fields with the tag hold.
spec fn transaction_held(info: Seq<u8>, slot: u64, tag: u32) -> Held {
    one_run(1, info, tag).and(nonzero(2, slot, tag))
}

proof fn lemma_transaction(info: Seq<u8>, slot: u64, tag: u32)
    requires
        encode::transaction_bytes(info, slot).len() <= u64::MAX,
    ensures
        held(encode::transaction_bytes(info, slot), tag) == Some(transaction_held(info, slot, tag)),
{
    lemma_run(1, info, tag);
    lemma_nonzero(2, slot, tag);
    let s1 = wire::bytes_field(1, info);
    let h1 = one_run(1, info, tag);
    lemma_both(s1, h1, wire::varint_field_opt(2, slot), nonzero(2, slot, tag), tag);
    let s2 = s1 + wire::varint_field_opt(2, slot);
    let h2 = h1.and(nonzero(2, slot, tag));
    assert(s2 == encode::transaction_bytes(info, slot));
    lemma_held(s2, tag, h2);
}

/// A transaction update holds the transaction and its slot.
pub proof fn law_transaction_fields(info: Seq<u8>, slot: u64)
    requires
        encode::transaction_bytes(info, slot).len() <= u64::MAX,
    ensures
        ({
            let s = encode::transaction_bytes(info, slot);
            &&& bytes_if_any(s, 1) == Some(Some(info))
            &&& number(s, 2) == Some(slot)
        }),
{
    lemma_transaction(info, slot, 1);
    lemma_transaction(info, slot, 2);
}

/// What the fields with the tag hold.
spec fn status_held(
    slot: u64,
    signature: Seq<u8>,
    is_vote: bool,
    index: u64,
    err: Option<Seq<u8>>,
    tag: u32,
) -> Held {
    nonzero(1, slot, tag)
        .and(nonempty(2, signature, tag))
        .and(flag(3, is_vote, tag))
        .and(nonzero(4, index, tag))
        .and(
            any_run(
                5,
                (match err { Some(e) => Some(wire::bytes_field_opt(1, e)), None => None }),
                tag,
            ),
        )
}

proof fn lemma_status(
    slot: u64,
    signature: Seq<u8>,
    is_vote: bool,
    index: u64,
    err: Option<Seq<u8>>,
    tag: u32,
)
    requires
        encode::transaction_status_bytes(slot, signature, is_vote, index, err).len() <= u64::MAX,
    ensures
        held(encode::transaction_status_bytes(slot, signature, is_vote, index, err), tag) == Some(
            status_held(slot, signature, is_vote, index, err, tag),
        ),
{
    lemma_nonzero(1, slot, tag);
    lemma_nonempty(2, signature, tag);
    lemma_flag(3, is_vote, tag);
    lemma_nonzero(4, index, tag);
    lemma_any_run(
        5,
        (match err { Some(e) => Some(wire::bytes_field_opt(1, e)), None => None }),
        tag,
    );
    let s1 = wire::varint_field_opt(1, slot);
    let h1 = nonzero(1, slot, tag);
    lemma_both(s1, h1, wire::bytes_field_opt(2, signature), nonempty(2, signature, tag), tag);
    let s2 = s1 + wire::bytes_field_opt(2, signature);
    let h2 = h1.and(nonempty(2, signature, tag));
    lemma_both(s2, h2, wire::bool_field_opt(3, is_vote), flag(3, is_vote, tag), tag);
    let s3 = s2 + wire::bool_field_opt(3, is_vote);
    let h3 = h2.and(flag(3, is_vote, tag));
    lemma_both(s3, h3, wire::varint_field_opt(4, index), nonzero(4, index, tag), tag);
    let s4 = s3 + wire::varint_field_opt(4, index);
    let h4 = h3.and(nonzero(4, index, tag));
    lemma_both(
        s4,
        h4,
        encode::optional_field(
            5,
            (match err { Some(e) => Some(wire::bytes_field_opt(1, e)), None => None }),
        ),
        any_run(5, (match err { Some(e) => Some(wire::bytes_field_opt(1, e)), None => None }), tag),
        tag,
    );
    let s5 = s4 + encode::optional_field(
        5,
        (match err { Some(e) => Some(wire::bytes_field_opt(1, e)), None => None }),
    );
    let h5 = h4.and(
        any_run(5, (match err { Some(e) => Some(wire::bytes_field_opt(1, e)), None => None }), tag),
    );
    assert(s5 == encode::transaction_status_bytes(slot, signature, is_vote, index, err));
    lemma_held(s5, tag, h5);
}

/// A transaction status update holds the slot, the signature, whether the transaction is a vote, its
/// index, and its error if it has one.
pub proof fn law_status_fields(
    slot: u64,
    signature: Seq<u8>,
    is_vote: bool,
    index: u64,
    err: Option<Seq<u8>>,
)
    requires
        encode::transaction_status_bytes(slot, signature, is_vote, index, err).len() <= u64::MAX,
    ensures
        ({
            let s = encode::transaction_status_bytes(slot, signature, is_vote, index, err);
            &&& number(s, 1) == Some(slot)
            &&& bytes(s, 2) == Some(signature)
            &&& number(s, 3) == Some(if is_vote { 1u64 } else { 0 })
            &&& number(s, 4) == Some(index)
            &&& bytes_inside(s, 5) == Some(err)
        }),
{
    lemma_status(slot, signature, is_vote, index, err, 1);
    lemma_status(slot, signature, is_vote, index, err, 2);
    lemma_status(slot, signature, is_vote, index, err, 3);
    lemma_status(slot, signature, is_vote, index, err, 4);
    lemma_status(slot, signature, is_vote, index, err, 5);
    if signature.len() == 0 {
        assert(signature =~= Seq::<u8>::empty());
    }
    if let Some(e) = err {
        lemma_bytes_message(e);
    }
}

/// What the fields with the tag hold.
spec fn entry_held(m: EntryView, tag: u32) -> Held {
    nonzero(1, m.slot, tag)
        .and(nonzero(2, m.index, tag))
        .and(nonzero(3, m.num_hashes, tag))
        .and(nonempty(4, m.hash, tag))
        .and(nonzero(5, m.executed_transaction_count, tag))
        .and(nonzero(6, m.starting_transaction_index, tag))
}

proof fn lemma_entry(m: EntryView, tag: u32)
    requires
        encode::entry_bytes(m).len() <= u64::MAX,
    ensures
        held(encode::entry_bytes(m), tag) == Some(entry_held(m, tag)),
{
    lemma_nonzero(1, m.slot, tag);
    lemma_nonzero(2, m.index, tag);
    lemma_nonzero(3, m.num_hashes, tag);
    lemma_nonempty(4, m.hash, tag);
    lemma_nonzero(5, m.executed_transaction_count, tag);
    lemma_nonzero(6, m.starting_transaction_index, tag);
    let s1 = wire::varint_field_opt(1, m.slot);
    let h1 = nonzero(1, m.slot, tag);
    lemma_both(s1, h1, wire::varint_field_opt(2, m.index), nonzero(2, m.index, tag), tag);
    let s2 = s1 + wire::varint_field_opt(2, m.index);
    let h2 = h1.and(nonzero(2, m.index, tag));
    lemma_both(s2, h2, wire::varint_field_opt(3, m.num_hashes), nonzero(3, m.num_hashes, tag), tag);
    let s3 = s2 + wire::varint_field_opt(3, m.num_hashes);
    let h3 = h2.and(nonzero(3, m.num_hashes, tag));
    lemma_both(s3, h3, wire::bytes_field_opt(4, m.hash), nonempty(4, m.hash, tag), tag);
    let s4 = s3 + wire::bytes_field_opt(4, m.hash);
    let h4 = h3.and(nonempty(4, m.hash, tag));
    lemma_both(
        s4,
        h4,
        wire::varint_field_opt(5, m.executed_transaction_count),
        nonzero(5, m.executed_transaction_count, tag),
        tag,
    );
    let s5 = s4 + wire::varint_field_opt(5, m.executed_transaction_count);
    let h5 = h4.and(nonzero(5, m.executed_transaction_count, tag));
    lemma_both(
        s5,
        h5,
        wire::varint_field_opt(6, m.starting_transaction_index),
        nonzero(6, m.starting_transaction_index, tag),
        tag,
    );
    let s6 = s5 + wire::varint_field_opt(6, m.starting_transaction_index);
    let h6 = h5.and(nonzero(6, m.starting_transaction_index, tag));
    assert(s6 == encode::entry_bytes(m));
    lemma_held(s6, tag, h6);
}

/// An entry update holds each of its parts.
pub proof fn law_entry_fields(m: EntryView)
    requires
        encode::entry_bytes(m).len() <= u64::MAX,
    ensures
        ({
            let s = encode::entry_bytes(m);
            &&& number(s, 1) == Some(m.slot)
            &&& number(s, 2) == Some(m.index)
            &&& number(s, 3) == Some(m.num_hashes)
            &&& bytes(s, 4) == Some(m.hash)
            &&& number(s, 5) == Some(m.executed_transaction_count)
            &&& number(s, 6) == Some(m.starting_transaction_index)
        }),
{
    lemma_entry(m, 1);
    lemma_entry(m, 2);
    lemma_entry(m, 3);
    lemma_entry(m, 4);
    lemma_entry(m, 5);
    lemma_entry(m, 6);
    if m.hash.len() == 0 {
        assert(m.hash =~= Seq::<u8>::empty());
    }
}

/// What the fields with the tag hold.
spec fn block_meta_held(m: BlockMetaView, tag: u32) -> Held {
    nonzero(1, m.slot, tag)
        .and(nonempty(2, vstd::utf8::encode_utf8(m.blockhash), tag))
        .and(any_run(3, m.rewards, tag))
        .and(any_run(4, encode::number_message(encode::time_number(m.block_time)), tag))
        .and(any_run(5, encode::number_message(m.block_height), tag))
        .and(nonzero(6, m.parent_slot, tag))
        .and(nonempty(7, vstd::utf8::encode_utf8(m.parent_blockhash), tag))
        .and(nonzero(8, m.executed_transaction_count, tag))
        .and(nonzero(9, m.entries_count, tag))
}

proof fn lemma_block_meta(m: BlockMetaView, tag: u32)
    requires
        encode::block_meta_bytes(m).len() <= u64::MAX,
    ensures
        held(encode::block_meta_bytes(m), tag) == Some(block_meta_held(m, tag)),
{
    lemma_nonzero(1, m.slot, tag);
    lemma_nonempty(2, vstd::utf8::encode_utf8(m.blockhash), tag);
    lemma_any_run(3, m.rewards, tag);
    lemma_any_run(4, encode::number_message(encode::time_number(m.block_time)), tag);
    lemma_any_run(5, encode::number_message(m.block_height), tag);
    lemma_nonzero(6, m.parent_slot, tag);
    lemma_nonempty(7, vstd::utf8::encode_utf8(m.parent_blockhash), tag);
    lemma_nonzero(8, m.executed_transaction_count, tag);
    lemma_nonzero(9, m.entries_count, tag);
    let s1 = wire::varint_field_opt(1, m.slot);
    let h1 = nonzero(1, m.slot, tag);
    lemma_both(
        s1,
        h1,
        wire::bytes_field_opt(2, vstd::utf8::encode_utf8(m.blockhash)),
        nonempty(2, vstd::utf8::encode_utf8(m.blockhash), tag),
        tag,
    );
    let s2 = s1 + wire::bytes_field_opt(2, vstd::utf8::encode_utf8(m.blockhash));
    let h2 = h1.and(nonempty(2, vstd::utf8::encode_utf8(m.blockhash), tag));
    lemma_both(s2, h2, encode::optional_field(3, m.rewards), any_run(3, m.rewards, tag), tag);
    let s3 = s2 + encode::optional_field(3, m.rewards);
    let h3 = h2.and(any_run(3, m.rewards, tag));
    lemma_both(
        s3,
        h3,
        encode::optional_field(4, encode::number_message(encode::time_number(m.block_time))),
        any_run(4, encode::number_message(encode::time_number(m.block_time)), tag),
        tag,
    );
    let s4 = s3 + encode::optional_field(
        4,
        encode::number_message(encode::time_number(m.block_time)),
    );
    let h4 = h3.and(any_run(4, encode::number_message(encode::time_number(m.block_time)), tag));
    lemma_both(
        s4,
        h4,
        encode::optional_field(5, encode::number_message(m.block_height)),
        any_run(5, encode::number_message(m.block_height), tag),
        tag,
    );
    let s5 = s4 + encode::optional_field(5, encode::number_message(m.block_height));
    let h5 = h4.and(any_run(5, encode::number_message(m.block_height), tag));
    lemma_both(
        s5,
        h5,
        wire::varint_field_opt(6, m.parent_slot),
        nonzero(6, m.parent_slot, tag),
        tag,
    );
    let s6 = s5 + wire::varint_field_opt(6, m.parent_slot);
    let h6 = h5.and(nonzero(6, m.parent_slot, tag));
    lemma_both(
        s6,
        h6,
        wire::bytes_field_opt(7, vstd::utf8::encode_utf8(m.parent_blockhash)),
        nonempty(7, vstd::utf8::encode_utf8(m.parent_blockhash), tag),
        tag,
    );
    let s7 = s6 + wire::bytes_field_opt(7, vstd::utf8::encode_utf8(m.parent_blockhash));
    let h7 = h6.and(nonempty(7, vstd::utf8::encode_utf8(m.parent_blockhash), tag));
    lemma_both(
        s7,
        h7,
        wire::varint_field_opt(8, m.executed_transaction_count),
        nonzero(8, m.executed_transaction_count, tag),
        tag,
    );
    let s8 = s7 + wire::varint_field_opt(8, m.executed_transaction_count);
    let h8 = h7.and(nonzero(8, m.executed_transaction_count, tag));
    lemma_both(
        s8,
        h8,
        wire::varint_field_opt(9, m.entries_count),
        nonzero(9, m.entries_count, tag),
        tag,
    );
    let s9 = s8 + wire::varint_field_opt(9, m.entries_count);
    let h9 = h8.and(nonzero(9, m.entries_count, tag));
    assert(s9 == encode::block_meta_bytes(m));
    lemma_held(s9, tag, h9);
}

/// A block metadata update holds each of its parts.
pub proof fn law_block_meta_fields(m: BlockMetaView)
    requires
        encode::block_meta_bytes(m).len() <= u64::MAX,
    ensures
        ({
            let s = encode::block_meta_bytes(m);
            &&& number(s, 1) == Some(m.slot)
            &&& bytes(s, 2) == Some(vstd::utf8::encode_utf8(m.blockhash))
            &&& bytes_if_any(s, 3) == Some(m.rewards)
            &&& number_inside(s, 4) == Some(match m.block_time {
 Some(t) => Some(t as u64),
 None => None,
 })
            &&& number_inside(s, 5) == Some(m.block_height)
            &&& number(s, 6) == Some(m.parent_slot)
            &&& bytes(s, 7) == Some(vstd::utf8::encode_utf8(m.parent_blockhash))
            &&& number(s, 8) == Some(m.executed_transaction_count)
            &&& number(s, 9) == Some(m.entries_count)
        }),
{
    lemma_block_meta(m, 1);
    lemma_block_meta(m, 2);
    lemma_block_meta(m, 3);
    lemma_block_meta(m, 4);
    lemma_block_meta(m, 5);
    lemma_block_meta(m, 6);
    lemma_block_meta(m, 7);
    lemma_block_meta(m, 8);
    lemma_block_meta(m, 9);
    if vstd::utf8::encode_utf8(m.blockhash).len() == 0 {
        assert(vstd::utf8::encode_utf8(m.blockhash) =~= Seq::<u8>::empty());
    }
    if vstd::utf8::encode_utf8(m.parent_blockhash).len() == 0 {
        assert(vstd::utf8::encode_utf8(m.parent_blockhash) =~= Seq::<u8>::empty());
    }
    if let Some(t) = m.block_time {
        lemma_number_message(t as u64);
    }
    if let Some(h) = m.block_height {
        lemma_number_message(h);
    }
}

/// What the fields with the tag hold.
spec fn block_held(
    m: BlockMetaView,
    transactions: Seq<Seq<u8>>,
    updated_account_count: u64,
    accounts: Seq<Seq<u8>>,
    entries: Seq<Seq<u8>>,
    tag: u32,
) -> Held {
    nonzero(1, m.slot, tag)
        .and(nonempty(2, vstd::utf8::encode_utf8(m.blockhash), tag))
        .and(any_run(3, m.rewards, tag))
        .and(any_run(4, encode::number_message(encode::time_number(m.block_time)), tag))
        .and(any_run(5, encode::number_message(m.block_height), tag))
        .and(all_runs(6, transactions, tag))
        .and(nonzero(7, m.parent_slot, tag))
        .and(nonempty(8, vstd::utf8::encode_utf8(m.parent_blockhash), tag))
        .and(nonzero(9, m.executed_transaction_count, tag))
        .and(nonzero(10, updated_account_count, tag))
        .and(all_runs(11, accounts, tag))
        .and(nonzero(12, m.entries_count, tag))
        .and(all_runs(13, entries, tag))
}

proof fn lemma_block(
    m: BlockMetaView,
    transactions: Seq<Seq<u8>>,
    updated_account_count: u64,
    accounts: Seq<Seq<u8>>,
    entries: Seq<Seq<u8>>,
    tag: u32,
)
    requires
        encode::block_bytes(
            m,
            transactions,
            updated_account_count,
            accounts,
            entries,
        ).len() <= u64::MAX,
    ensures
        held(
            encode::block_bytes(m, transactions, updated_account_count, accounts, entries),
            tag,
        ) == Some(block_held(m, transactions, updated_account_count, accounts, entries, tag)),
{
    lemma_nonzero(1, m.slot, tag);
    lemma_nonempty(2, vstd::utf8::encode_utf8(m.blockhash), tag);
    lemma_any_run(3, m.rewards, tag);
    lemma_any_run(4, encode::number_message(encode::time_number(m.block_time)), tag);
    lemma_any_run(5, encode::number_message(m.block_height), tag);
    lemma_all_runs(6, transactions, tag);
    lemma_nonzero(7, m.parent_slot, tag);
    lemma_nonempty(8, vstd::utf8::encode_utf8(m.parent_blockhash), tag);
    lemma_nonzero(9, m.executed_transaction_count, tag);
    lemma_nonzero(10, updated_account_count, tag);
    lemma_all_runs(11, accounts, tag);
    lemma_nonzero(12, m.entries_count, tag);
    lemma_all_runs(13, entries, tag);
    let s1 = wire::varint_field_opt(1, m.slot);
    let h1 = nonzero(1, m.slot, tag);
    lemma_both(
        s1,
        h1,
        wire::bytes_field_opt(2, vstd::utf8::encode_utf8(m.blockhash)),
        nonempty(2, vstd::utf8::encode_utf8(m.blockhash), tag),
        tag,
    );
    let s2 = s1 + wire::bytes_field_opt(2, vstd::utf8::encode_utf8(m.blockhash));
    let h2 = h1.and(nonempty(2, vstd::utf8::encode_utf8(m.blockhash), tag));
    lemma_both(s2, h2, encode::optional_field(3, m.rewards), any_run(3, m.rewards, tag), tag);
    let s3 = s2 + encode::optional_field(3, m.rewards);
    let h3 = h2.and(any_run(3, m.rewards, tag));
    lemma_both(
        s3,
        h3,
        encode::optional_field(4, encode::number_message(encode::time_number(m.block_time))),
        any_run(4, encode::number_message(encode::time_number(m.block_time)), tag),
        tag,
    );
    let s4 = s3 + encode::optional_field(
        4,
        encode::number_message(encode::time_number(m.block_time)),
    );
    let h4 = h3.and(any_run(4, encode::number_message(encode::time_number(m.block_time)), tag));
    lemma_both(
        s4,
        h4,
        encode::optional_field(5, encode::number_message(m.block_height)),
        any_run(5, encode::number_message(m.block_height), tag),
        tag,
    );
    let s5 = s4 + encode::optional_field(5, encode::number_message(m.block_height));
    let h5 = h4.and(any_run(5, encode::number_message(m.block_height), tag));
    lemma_both(
        s5,
        h5,
        encode::repeated_field(6, transactions),
        all_runs(6, transactions, tag),
        tag,
    );
    let s6 = s5 + encode::repeated_field(6, transactions);
    let h6 = h5.and(all_runs(6, transactions, tag));
    lemma_both(
        s6,
        h6,
        wire::varint_field_opt(7, m.parent_slot),
        nonzero(7, m.parent_slot, tag),
        tag,
    );
    let s7 = s6 + wire::varint_field_opt(7, m.parent_slot);
    let h7 = h6.and(nonzero(7, m.parent_slot, tag));
    lemma_both(
        s7,
        h7,
        wire::bytes_field_opt(8, vstd::utf8::encode_utf8(m.parent_blockhash)),
        nonempty(8, vstd::utf8::encode_utf8(m.parent_blockhash), tag),
        tag,
    );
    let s8 = s7 + wire::bytes_field_opt(8, vstd::utf8::encode_utf8(m.parent_blockhash));
    let h8 = h7.and(nonempty(8, vstd::utf8::encode_utf8(m.parent_blockhash), tag));
    lemma_both(
        s8,
        h8,
        wire::varint_field_opt(9, m.executed_transaction_count),
        nonzero(9, m.executed_transaction_count, tag),
        tag,
    );
    let s9 = s8 + wire::varint_field_opt(9, m.executed_transaction_count);
    let h9 = h8.and(nonzero(9, m.executed_transaction_count, tag));
    lemma_both(
        s9,
        h9,
        wire::varint_field_opt(10, updated_account_count),
        nonzero(10, updated_account_count, tag),
        tag,
    );
    let s10 = s9 + wire::varint_field_opt(10, updated_account_count);
    let h10 = h9.and(nonzero(10, updated_account_count, tag));
    lemma_both(s10, h10, encode::repeated_field(11, accounts), all_runs(11, accounts, tag), tag);
    let s11 = s10 + encode::repeated_field(11, accounts);
    let h11 = h10.and(all_runs(11, accounts, tag));
    lemma_both(
        s11,
        h11,
        wire::varint_field_opt(12, m.entries_count),
        nonzero(12, m.entries_count, tag),
        tag,
    );
    let s12 = s11 + wire::varint_field_opt(12, m.entries_count);
    let h12 = h11.and(nonzero(12, m.entries_count, tag));
    lemma_both(s12, h12, encode::repeated_field(13, entries), all_runs(13, entries, tag), tag);
    let s13 = s12 + encode::repeated_field(13, entries);
    let h13 = h12.and(all_runs(13, entries, tag));
    assert(s13 == encode::block_bytes(m, transactions, updated_account_count, accounts, entries));
    lemma_held(s13, tag, h13);
}

/// A block update holds the metadata, the transactions, the accounts and the entries, in order, and
/// how many accounts were updated.
pub proof fn law_block_fields(
    m: BlockMetaView,
    transactions: Seq<Seq<u8>>,
    updated_account_count: u64,
    accounts: Seq<Seq<u8>>,
    entries: Seq<Seq<u8>>,
)
    requires
        encode::block_bytes(
            m,
            transactions,
            updated_account_count,
            accounts,
            entries,
        ).len() <= u64::MAX,
    ensures
        ({
            let s = encode::block_bytes(m, transactions, updated_account_count, accounts, entries);
            &&& number(s, 1) == Some(m.slot)
            &&& bytes(s, 2) == Some(vstd::utf8::encode_utf8(m.blockhash))
            &&& bytes_if_any(s, 3) == Some(m.rewards)
            &&& number_inside(s, 4) == Some(match m.block_time {
 Some(t) => Some(t as u64),
 None => None,
 })
            &&& number_inside(s, 5) == Some(m.block_height)
            &&& each(s, 6) == Some(transactions)
            &&& number(s, 7) == Some(m.parent_slot)
            &&& bytes(s, 8) == Some(vstd::utf8::encode_utf8(m.parent_blockhash))
            &&& number(s, 9) == Some(m.executed_transaction_count)
            &&& number(s, 10) == Some(updated_account_count)
            &&& each(s, 11) == Some(accounts)
            &&& number(s, 12) == Some(m.entries_count)
            &&& each(s, 13) == Some(entries)
        }),
{
    lemma_block(m, transactions, updated_account_count, accounts, entries, 1);
    lemma_block(m, transactions, updated_account_count, accounts, entries, 2);
    lemma_block(m, transactions, updated_account_count, accounts, entries, 3);
    lemma_block(m, transactions, updated_account_count, accounts, entries, 4);
    lemma_block(m, transactions, updated_account_count, accounts, entries, 5);
    lemma_block(m, transactions, updated_account_count, accounts, entries, 6);
    lemma_block(m, transactions, updated_account_count, accounts, entries, 7);
    lemma_block(m, transactions, updated_account_count, accounts, entries, 8);
    lemma_block(m, transactions, updated_account_count, accounts, entries, 9);
    lemma_block(m, transactions, updated_account_count, accounts, entries, 10);
    lemma_block(m, transactions, updated_account_count, accounts, entries, 11);
    lemma_block(m, transactions, updated_account_count, accounts, entries, 12);
    lemma_block(m, transactions, updated_account_count, accounts, entries, 13);
    if vstd::utf8::encode_utf8(m.blockhash).len() == 0 {
        assert(vstd::utf8::encode_utf8(m.blockhash) =~= Seq::<u8>::empty());
    }
    if transactions.len() == 0 {
        assert(transactions =~= Seq::<Seq<u8>>::empty());
    }
    if vstd::utf8::encode_utf8(m.parent_blockhash).len() == 0 {
        assert(vstd::utf8::encode_utf8(m.parent_blockhash) =~= Seq::<u8>::empty());
    }
    if accounts.len() == 0 {
        assert(accounts =~= Seq::<Seq<u8>>::empty());
    }
    if entries.len() == 0 {
        assert(entries =~= Seq::<Seq<u8>>::empty());
    }
    if let Some(t) = m.block_time {
        lemma_number_message(t as u64);
    }
    if let Some(h) = m.block_height {
        lemma_number_message(h);
    }
}

/// What the fields with the tag hold.
spec fn timestamp_held(ts: Timestamp, tag: u32) -> Held {
    nonzero(1, ts.seconds as u64, tag).and(nonzero(2, ts.nanos as u64, tag))
}

proof fn lemma_timestamp(ts: Timestamp, tag: u32)
    requires
        codec::timestamp_bytes(ts).len() <= u64::MAX,
    ensures
        held(codec::timestamp_bytes(ts), tag) == Some(timestamp_held(ts, tag)),
{
    lemma_nonzero(1, ts.seconds as u64, tag);
    lemma_nonzero(2, ts.nanos as u64, tag);
    let s1 = wire::varint_field_opt(1, ts.seconds as u64);
    let h1 = nonzero(1, ts.seconds as u64, tag);
    lemma_both(
        s1,
        h1,
        wire::varint_field_opt(2, ts.nanos as u64),
        nonzero(2, ts.nanos as u64, tag),
        tag,
    );
    let s2 = s1 + wire::varint_field_opt(2, ts.nanos as u64);
    let h2 = h1.and(nonzero(2, ts.nanos as u64, tag));
    assert(s2 == codec::timestamp_bytes(ts));
    lemma_held(s2, tag, h2);
}

/// A time holds its seconds and its nanoseconds.
pub proof fn law_timestamp_fields(ts: Timestamp)
    requires
        codec::timestamp_bytes(ts).len() <= u64::MAX,
    ensures
        ({
            let s = codec::timestamp_bytes(ts);
            &&& number(s, 1) == Some(ts.seconds as u64)
            &&& number(s, 2) == Some(ts.nanos as u64)
        }),
{
    lemma_timestamp(ts, 1);
    lemma_timestamp(ts, 2);
}

// ---------------------------------------------------------------------------------------------
// Updates
// ---------------------------------------------------------------------------------------------

/// An envelope holds the names of the filters in order, the update under its tag and under no other tag
/// of an update, and the time.
pub proof fn law_envelope_fields(
    filters: Seq<Seq<char>>,
    tag: u32,
    payload: Seq<u8>,
    created_at: Timestamp,
    other: u32,
)
    requires
        2 <= tag <= 10,
        encode::envelope_bytes(filters, tag, payload, created_at).len() <= u64::MAX,
    ensures
        ({
            let s = encode::envelope_bytes(filters, tag, payload, created_at);
            &&& each(s, 1) matches Some(names) && {
                &&& names.len() == filters.len()
                &&& forall|i: int|
                    0 <= i < names.len() ==> #[trigger] names[i] == vstd::utf8::encode_utf8(
                        filters[i],
                    )
            }
            &&& bytes_if_any(s, tag) == Some(Some(payload))
            &&& other != 1 && other != tag && other != 11 ==> bytes_if_any(s, other) == Some(
                None::<Seq<u8>>,
            )
            &&& time(s) == Some((created_at.seconds as u64, created_at.nanos as u64))
        }),
{
    let names = encode::utf8_each(filters);
    let ts = codec::timestamp_bytes(created_at);
    let s = encode::envelope_bytes(filters, tag, payload, created_at);
    lemma_envelope(filters, tag, payload, created_at, 1);
    lemma_envelope(filters, tag, payload, created_at, tag);
    lemma_envelope(filters, tag, payload, created_at, 11);
    lemma_envelope(filters, tag, payload, created_at, other);
    law_timestamp_fields(created_at);
    if names.len() == 0 {
        assert(names =~= Seq::<Seq<u8>>::empty());
    }
}

/// The seconds and the nanoseconds of the time in an envelope.
pub open spec fn time(s: Seq<u8>) -> Option<(u64, u64)> {
    match bytes_if_any(s, 11) {
        Some(Some(ts)) => match (number(ts, 1), number(ts, 2)) {
            (Some(seconds), Some(nanos)) => Some((seconds, nanos)),
            _ => None,
        },
        _ => None,
    }
}

proof fn lemma_envelope(
    filters: Seq<Seq<char>>,
    field: u32,
    payload: Seq<u8>,
    created_at: Timestamp,
    tag: u32,
)
    requires
        2 <= field <= 10,
        encode::envelope_bytes(filters, field, payload, created_at).len() <= u64::MAX,
    ensures
        held(encode::envelope_bytes(filters, field, payload, created_at), tag) == Some(
            all_runs(1, encode::utf8_each(filters), tag).and(one_run(field, payload, tag)).and(
                one_run(11, codec::timestamp_bytes(created_at), tag),
            ),
        ),
{
    let names = encode::utf8_each(filters);
    let ts = codec::timestamp_bytes(created_at);
    lemma_all_runs(1, names, tag);
    lemma_run(field, payload, tag);
    lemma_run(11, ts, tag);
    let s1 = encode::repeated_field(1, names);
    let h1 = all_runs(1, names, tag);
    lemma_both(s1, h1, wire::bytes_field(field, payload), one_run(field, payload, tag), tag);
    let s2 = s1 + wire::bytes_field(field, payload);
    let h2 = h1.and(one_run(field, payload, tag));
    lemma_both(s2, h2, wire::bytes_field(11, ts), one_run(11, ts, tag), tag);
    let s3 = s2 + wire::bytes_field(11, ts);
    let h3 = h2.and(one_run(11, ts, tag));
    assert(s3 == encode::envelope_bytes(filters, field, payload, created_at));
    lemma_held(s3, tag, h3);
}

/// Whether `part` holds the account, and of its data what `slices` ask for: all of it where there are
/// none, and else what each of them covers, if the data reaches that far.
pub open spec fn account_with_parts(
    part: Seq<u8>,
    a: AccountInfoView,
    slices: Seq<(nat, nat)>,
) -> bool {
    &&& bytes(part, 1) == Some(a.pubkey)
    &&& number(part, 2) == Some(a.lamports)
    &&& bytes(part, 3) == Some(a.owner)
    &&& number(part, 4) == Some(
        if a.executable {
            1u64
        } else {
            0
        },
    )
    &&& number(part, 5) == Some(a.rent_epoch)
    &&& bytes(part, 6) == Some(filter::slice_of(slices, a.data))
    &&& slices.len() == 0 ==> bytes(part, 6) == Some(a.data)
    &&& slices.len() == 1 && slices[0].0 <= slices[0].1 ==> bytes(part, 6) == Some(
        if slices[0].1 <= a.data.len() {
            a.data.subrange(slices[0].0 as int, slices[0].1 as int)
        } else {
            Seq::empty()
        },
    )
    &&& number(part, 7) == Some(a.write_version)
    &&& bytes_if_any(part, 8) == Some(a.txn_signature)
}

/// An account with the parts of its data that are asked for.
proof fn lemma_account_with_parts(m: MessageAccountView, slices: Seq<(nat, nat)>)
    requires
        update::account_part(m, slices).len() <= u64::MAX,
    ensures
        m matches MessageAccountView::Prost { account, .. } ==> account_with_parts(
            update::account_part(m, slices),
            account,
            slices,
        ),
        m is Limited ==> account_with_parts(
            update::account_part(m, slices),
            m.content().info,
            slices,
        ),
{
    let a = update::sliced_info(m, slices);
    let info = update::account_info(m);
    law_account_info_fields(a);
    if slices.len() == 0 {
        assert(slices =~= Seq::<(nat, nat)>::empty());
        filter::law_no_slice(info.data);
    }
    if slices.len() == 1 && slices[0].0 <= slices[0].1 {
        assert(slices =~= seq![(slices[0].0, slices[0].1)]);
        filter::law_one_slice(slices[0].0, slices[0].1, info.data);
    }
}

/// Of a block update, each part is what passed of the block: each transaction and each entry whole, and
/// each account with the parts of its data that are asked for. The metadata is that of the block, and the
/// number of accounts is that of all of them, whatever passed.
#[verifier::rlimit(40)]
#[verifier::spinoff_prover]
pub proof fn law_sent_block(
    m: MessageBlockView,
    accounts: Seq<usize>,
    transactions: Seq<usize>,
    entries: bool,
    slices: Seq<(nat, nat)>,
)
    requires
        update::block_encodable(m, accounts, transactions, entries),
        update::block_payload(m, accounts, transactions, entries, slices).len() <= u64::MAX,
    ensures
        ({
            let s = update::block_payload(m, accounts, transactions, entries, slices);
            let meta = match m.block_meta {
                MessageBlockMetaView::Limited { block_meta, .. } => block_meta,
                MessageBlockMetaView::Prost { block_meta, .. } => block_meta,
            };
            &&& number(s, 1) == Some(meta.slot)
            &&& bytes(s, 2) == Some(vstd::utf8::encode_utf8(meta.blockhash))
            &&& bytes_if_any(s, 3) == Some(meta.rewards)
            &&& number_inside(s, 4) == Some(
                match meta.block_time {
                    Some(t) => Some(t as u64),
                    None => None,
                },
            )
            &&& number_inside(s, 5) == Some(meta.block_height)
            &&& each(s, 6) matches Some(parts) && {
                &&& parts.len() == transactions.len()
                &&& forall|j: int|
                    0 <= j < parts.len() ==> #[trigger] parts[j] == (
                    match m.transactions[transactions[j] as int] {
                        MessageTransactionView::Limited {
                            buffer,
                            transaction_range,
                            ..
                        } => buffer.subrange(
                            transaction_range.start as int,
                            transaction_range.end as int,
                        ),
                        MessageTransactionView::Prost { transaction, .. } => {
                            encode::transaction_info_bytes(transaction)
                        },
                    })
            }
            &&& number(s, 7) == Some(meta.parent_slot)
            &&& bytes(s, 8) == Some(vstd::utf8::encode_utf8(meta.parent_blockhash))
            &&& number(s, 9) == Some(meta.executed_transaction_count)
            &&& number(s, 10) == Some(m.accounts.len() as u64)
            &&& each(s, 11) matches Some(parts) && {
                &&& parts.len() == accounts.len()
                &&& forall|j: int|
                    0 <= j < parts.len() ==> account_with_parts(
                        #[trigger] parts[j],
                        match m.accounts[accounts[j] as int] {
                            MessageAccountView::Limited { fields, buffer, .. } => {
                                account::content(buffer, fields).info
                            },
                            MessageAccountView::Prost { account, .. } => account,
                        },
                        slices,
                    )
            }
            &&& number(s, 12) == Some(meta.entries_count)
            &&& each(s, 13) matches Some(parts) && {
                &&& parts.len() == if entries {
                    m.entries.len()
                } else {
                    0
                }
                &&& forall|j: int|
                    0 <= j < parts.len() ==> #[trigger] parts[j] == (match m.entries[j] {
                        MessageEntryView::Limited { buffer, range, .. } => buffer.subrange(
                            range.start as int,
                            range.end as int,
                        ),
                        MessageEntryView::Prost { entry, .. } => encode::entry_bytes(entry),
                    })
            }
        }),
{
    let s = update::block_payload(m, accounts, transactions, entries, slices);
    let meta = m.block_meta.block_meta();
    let t = update::transaction_parts(m.transactions, transactions);
    let a = update::account_parts(m.accounts, accounts, slices);
    let e = update::entry_parts(m.entries, entries);
    law_block_fields(meta, t, m.accounts.len() as u64, a, e);
    assert(encode::repeated_field(11, a).len() <= s.len());
    assert forall|j: int| 0 <= j < a.len() implies account_with_parts(
        #[trigger] a[j],
        match m.accounts[accounts[j] as int] {
            MessageAccountView::Limited { fields, buffer, .. } => {
                account::content(buffer, fields).info
            },
            MessageAccountView::Prost { account, .. } => account,
        },
        slices,
    ) by {
        lemma_part_len(11, a, j);
        assert(a[j] == update::account_part(m.accounts[accounts[j] as int], slices));
        lemma_account_with_parts(m.accounts[accounts[j] as int], slices);
    }
}

/// A part is no longer than all parts.
proof fn lemma_part_len(field: u32, ps: Seq<Seq<u8>>, j: int)
    requires
        0 <= j < ps.len(),
    ensures
        ps[j].len() <= encode::repeated_field(field, ps).len(),
    decreases ps.len(),
{
    if j < ps.len() - 1 {
        lemma_part_len(field, ps.drop_last(), j);
        assert(ps.drop_last()[j] == ps[j]);
    }
}

/// An account update holds the account with the parts of its data that are asked for, and its slot, and
/// whether it came at startup. Where all of the data is asked for, it is the bytes that came, if they did.
pub proof fn law_sent_account(m: MessageAccountView, slices: Seq<(nat, nat)>)
    requires
        m.in_bounds(),
        update::account_payload(m, slices).len() <= u64::MAX,
    ensures
        ({
            let s = update::account_payload(m, slices);
            match m {
                MessageAccountView::Limited { fields, buffer, range, .. } => {
                    &&& slices.len() == 0 ==> s == buffer.subrange(
                        range.start as int,
                        range.end as int,
                    )
                    &&& slices.len() > 0 ==> {
                        &&& bytes_if_any(s, 1) matches Some(Some(part)) && account_with_parts(
                            part,
                            account::content(buffer, fields).info,
                            slices,
                        )
                        &&& number(s, 2) == Some(fields.slot)
                        &&& number(s, 3) == Some(
                            if fields.is_startup {
                                1u64
                            } else {
                                0
                            },
                        )
                    }
                },
                MessageAccountView::Prost { account, slot, is_startup, .. } => {
                    &&& bytes_if_any(s, 1) matches Some(Some(part)) && account_with_parts(
                        part,
                        account,
                        slices,
                    )
                    &&& number(s, 2) == Some(slot)
                    &&& number(s, 3) == Some(
                        if is_startup {
                            1u64
                        } else {
                            0
                        },
                    )
                },
            }
        }),
{
    if m is Prost || slices.len() > 0 {
        let v = AccountView {
            account: Some(update::sliced_info(m, slices)),
            slot: m.content().slot,
            is_startup: m.content().is_startup,
        };
        law_account_fields(v);
        assert(encode::account_bytes(v).len() >= update::account_part(m, slices).len());
        lemma_account_with_parts(m, slices);
    }
}

/// A slot update is the bytes that came, or holds what the message says.
pub proof fn law_sent_slot(m: MessageSlotView)
    requires
        update::slot_encodable(m),
        update::slot_payload(m).len() <= u64::MAX,
    ensures
        ({
            let s = update::slot_payload(m);
            match m {
                MessageSlotView::Limited { buffer, range, .. } => s == buffer.subrange(
                    range.start as int,
                    range.end as int,
                ),
                MessageSlotView::Prost { slot, parent, status, dead_error, .. } => {
                    &&& number(s, 1) == Some(slot)
                    &&& number_if_any(s, 2) == Some(parent)
                    &&& number(s, 3) == Some(
                        match status {
                            SlotStatus::SlotProcessed => 0u64,
                            SlotStatus::SlotConfirmed => 1,
                            SlotStatus::SlotFinalized => 2,
                            SlotStatus::SlotFirstShredReceived => 3,
                            SlotStatus::SlotCompleted => 4,
                            SlotStatus::SlotCreatedBank => 5,
                            SlotStatus::SlotDead => 6,
                        },
                    )
                    &&& bytes_if_any(s, 4) == Some(
                        match dead_error {
                            Some(e) => Some(vstd::utf8::encode_utf8(e)),
                            None => None,
                        },
                    )
                },
            }
        }),
{
    if let MessageSlotView::Prost { slot, parent, status, dead_error, .. } = m {
        law_slot_fields(
            SlotView {
                slot,
                parent,
                status: crate::geyser::slot_status_number(status),
                dead_error,
            },
        );
    }
}

/// A transaction update is the bytes that came, or holds the transaction and its slot.
pub proof fn law_sent_transaction(m: MessageTransactionView)
    requires
        m.in_bounds(),
        update::transaction_payload(m).len() <= u64::MAX,
    ensures
        ({
            let s = update::transaction_payload(m);
            match m {
                MessageTransactionView::Limited { buffer, range, .. } => s == buffer.subrange(
                    range.start as int,
                    range.end as int,
                ),
                MessageTransactionView::Prost { transaction, slot, .. } => {
                    &&& bytes_if_any(s, 1) == Some(
                        Some(encode::transaction_info_bytes(transaction)),
                    )
                    &&& number(s, 2) == Some(slot)
                },
            }
        }),
{
    if let MessageTransactionView::Prost { transaction, slot, .. } = m {
        law_transaction_fields(encode::transaction_info_bytes(transaction), slot);
    }
}

/// A transaction status update holds the slot, the signature, the index and the error of the
/// transaction, and whether it is a vote.
pub proof fn law_sent_status(m: MessageTransactionView)
    requires
        m.in_bounds(),
        m.signed(),
        update::status_payload(m).len() <= u64::MAX,
    ensures
        ({
            let s = update::status_payload(m);
            match m {
                MessageTransactionView::Limited {
                    signature,
                    error,
                    is_vote,
                    index,
                    slot,
                    buffer,
                    ..
                } => {
                    &&& number(s, 1) == Some(slot)
                    &&& signature matches Some(at) && bytes(s, 2) == Some(
                        buffer.subrange(at as int, at as int + 64),
                    )
                    &&& number(s, 3) == Some(
                        if is_vote {
                            1u64
                        } else {
                            0
                        },
                    )
                    &&& number(s, 4) == Some(index)
                    &&& bytes_inside(s, 5) == Some(error)
                },
                MessageTransactionView::Prost { error, transaction, slot, .. } => {
                    &&& number(s, 1) == Some(slot)
                    &&& bytes(s, 2) == Some(transaction.signature)
                    &&& number(s, 3) == Some(
                        if transaction.is_vote {
                            1u64
                        } else {
                            0
                        },
                    )
                    &&& number(s, 4) == Some(transaction.index)
                    &&& bytes_inside(s, 5) == Some(error)
                },
            }
        }),
{
    law_status_fields(m.slot(), m.signature(), m.vote(), m.index(), m.error());
}

/// An entry update is the bytes that came, or holds the entry.
pub proof fn law_sent_entry(m: MessageEntryView)
    requires
        update::entry_encodable(m),
        update::entry_payload(m).len() <= u64::MAX,
    ensures
        ({
            let s = update::entry_payload(m);
            match m {
                MessageEntryView::Limited { buffer, range, .. } => s == buffer.subrange(
                    range.start as int,
                    range.end as int,
                ),
                MessageEntryView::Prost { entry, .. } => {
                    &&& number(s, 1) == Some(entry.slot)
                    &&& number(s, 2) == Some(entry.index)
                    &&& number(s, 3) == Some(entry.num_hashes)
                    &&& bytes(s, 4) == Some(entry.hash)
                    &&& number(s, 5) == Some(entry.executed_transaction_count)
                    &&& number(s, 6) == Some(entry.starting_transaction_index)
                },
            }
        }),
{
    if let MessageEntryView::Prost { entry, .. } = m {
        law_entry_fields(entry);
    }
}

/// A block metadata update is the bytes that came, or holds the metadata.
pub proof fn law_sent_block_meta(m: MessageBlockMetaView)
    requires
        update::block_meta_encodable(m),
        update::block_meta_payload(m).len() <= u64::MAX,
    ensures
        ({
            let s = update::block_meta_payload(m);
            match m {
                MessageBlockMetaView::Limited { buffer, range, .. } => s == buffer.subrange(
                    range.start as int,
                    range.end as int,
                ),
                MessageBlockMetaView::Prost { block_meta: meta, .. } => {
                    &&& number(s, 1) == Some(meta.slot)
                    &&& bytes(s, 2) == Some(vstd::utf8::encode_utf8(meta.blockhash))
                    &&& bytes_if_any(s, 3) == Some(meta.rewards)
                    &&& number_inside(s, 4) == Some(
                        match meta.block_time {
                            Some(t) => Some(t as u64),
                            None => None,
                        },
                    )
                    &&& number_inside(s, 5) == Some(meta.block_height)
                    &&& number(s, 6) == Some(meta.parent_slot)
                    &&& bytes(s, 7) == Some(vstd::utf8::encode_utf8(meta.parent_blockhash))
                    &&& number(s, 8) == Some(meta.executed_transaction_count)
                    &&& number(s, 9) == Some(meta.entries_count)
                },
            }
        }),
{
    if let MessageBlockMetaView::Prost { block_meta, .. } = m {
        law_block_meta_fields(block_meta);
    }
}

/// Whether the envelope holds the names, the update under the tag and under no other tag, and the time.
pub open spec fn carries(
    s: Seq<u8>,
    names: Seq<Seq<char>>,
    tag: u32,
    payload: Seq<u8>,
    created_at: Timestamp,
) -> bool {
    &&& each(s, 1) matches Some(found) && {
        &&& found.len() == names.len()
        &&& forall|i: int|
            0 <= i < found.len() ==> #[trigger] found[i] == vstd::utf8::encode_utf8(names[i])
    }
    &&& bytes_if_any(s, tag) == Some(Some(payload))
    &&& forall|other: u32|
        other != 1 && other != tag && other != 11 ==> #[trigger] bytes_if_any(s, other) == Some(
            None::<Seq<u8>>,
        )
    &&& time(s) == Some((created_at.seconds as u64, created_at.nanos as u64))
}

/// An update that passed carries the names of the filters that it passed, the time of its message, and
/// the message under the tag of its kind alone.
pub proof fn law_sent(u: FilteredUpdate)
    requires
        update::encodable(u.filtered_update),
        u.encoded().len() <= u64::MAX,
    ensures
        ({
            let s = u.encoded();
            let names = collections::names(u.filters);
            match u.filtered_update {
                FilteredUpdateType::Slot { message } => carries(
                    s,
                    names,
                    3,
                    update::slot_payload(message@),
                    message@.created_at(),
                ),
                FilteredUpdateType::Account { message, data_slices } => carries(
                    s,
                    names,
                    2,
                    update::account_payload(message@, data_slices@),
                    message@.created_at(),
                ),
                FilteredUpdateType::Transaction { message } => carries(
                    s,
                    names,
                    4,
                    update::transaction_payload(message@),
                    message@.created_at(),
                ),
                FilteredUpdateType::TransactionStatus { message } => carries(
                    s,
                    names,
                    10,
                    update::status_payload(message@),
                    message@.created_at(),
                ),
                FilteredUpdateType::Entry { message } => carries(
                    s,
                    names,
                    8,
                    update::entry_payload(message@),
                    message@.created_at(),
                ),
                FilteredUpdateType::BlockMeta { message } => carries(
                    s,
                    names,
                    7,
                    update::block_meta_payload(message@),
                    message@.created_at(),
                ),
                FilteredUpdateType::Block {
                    message,
                    accounts,
                    transactions,
                    entries,
                    data_slices,
                } => carries(
                    s,
                    names,
                    5,
                    update::block_payload(
                        message@,
                        accounts@,
                        transactions@,
                        entries,
                        data_slices@,
                    ),
                    message@.created_at.timestamp(),
                ),
            }
        }),
{
    let (tag, payload, created_at) = update::update_parts(u.filtered_update);
    let names = collections::names(u.filters);
    let s = u.encoded();
    law_envelope_fields(names, tag, payload, created_at, 0);
    assert forall|other: u32|
        other != 1 && other != tag && other != 11 implies #[trigger] bytes_if_any(s, other) == Some(
        None::<Seq<u8>>,
    ) by {
        law_envelope_fields(names, tag, payload, created_at, other);
    }
    assert(carries(s, names, tag, payload, created_at));
}

/// What a subscriber who asked for one part of the data of accounts is sent of a block: of the data of each
/// account that passed just that part, and nothing where the data does not reach that far. Who asked for
/// none is sent all of it.
pub proof fn law_block_for_subscriber(
    config: ConfigFilter,
    filter: &Filter,
    updates: Seq<FilteredUpdate>,
    m: &MessageBlock,
    commitment: CommitmentLevel,
    i: int,
    j: int,
)
    requires
        filter@ == filter::filter_model(config),
        filter.makes(updates, MessageRef::Block(m), commitment),
        0 <= i < updates.len(),
        update::encodable(updates[i].filtered_update),
        updates[i].encoded().len() <= u64::MAX,
    ensures
        updates[i].filtered_update matches FilteredUpdateType::Block { message, accounts, .. } && {
            &&& message == m
            &&& 0 <= j < accounts@.len() ==> {
                let a = match m@.accounts[accounts@[j] as int] {
                    MessageAccountView::Limited { fields, buffer, .. } => {
                        account::content(buffer, fields).info
                    },
                    MessageAccountView::Prost { account, .. } => account,
                };
                &&& bytes_if_any(updates[i].encoded(), 5) matches Some(Some(s)) && each(s, 11)
                    matches Some(parts) && {
                    &&& parts.len() == accounts@.len()
                    &&& bytes(parts[j], 1) == Some(a.pubkey)
                    &&& number(parts[j], 2) == Some(a.lamports)
                    &&& config.accounts_data_slice@.len() == 0 ==> bytes(parts[j], 6) == Some(
                        a.data,
                    )
                    &&& config.accounts_data_slice@.len() == 1 ==> {
                        let start = config.accounts_data_slice@[0].offset as int;
                        let end = start + config.accounts_data_slice@[0].length;
                        bytes(parts[j], 6) == Some(
                            if end <= a.data.len() {
                                a.data.subrange(start, end)
                            } else {
                                Seq::empty()
                            },
                        )
                    }
                }
            }
        },
{
    assert(filter::block_update(updates[i], filter@.blocks[i], m, filter.data_slices()));
    filter::law_data_slices(filter, config, 0);
    law_sent(updates[i]);
    if let FilteredUpdateType::Block { message, accounts, transactions, entries, data_slices } =
        updates[i].filtered_update {
        let payload = update::block_payload(
            message@,
            accounts@,
            transactions@,
            entries,
            data_slices@,
        );
        assert(payload.len() <= wire::bytes_field(5, payload).len());
        law_sent_block(message@, accounts@, transactions@, entries, data_slices@);
    }
}

/// What a subscriber who asked for one part of the data of accounts is sent of an account that is decoded in
/// full: of its data just that part, and nothing where it does not reach that far. Who asked for none is
/// sent all of it.
pub proof fn law_account_for_subscriber(
    config: ConfigFilter,
    filter: &Filter,
    updates: Seq<FilteredUpdate>,
    m: &MessageAccount,
    commitment: CommitmentLevel,
)
    requires
        filter@ == filter::filter_model(config),
        filter.makes(updates, MessageRef::Account(m), commitment),
        updates.len() > 0,
        m@ is Prost,
        updates[0].encoded().len() <= u64::MAX,
    ensures
        updates.len() == 1,
        ({
            let a = m@->Prost_account;
            &&& bytes_if_any(updates[0].encoded(), 2) matches Some(Some(s)) && {
                &&& number(s, 2) == Some(m@->Prost_slot)
                &&& bytes_if_any(s, 1) matches Some(Some(part)) && {
                    &&& bytes(part, 1) == Some(a.pubkey)
                    &&& bytes(part, 3) == Some(a.owner)
                    &&& number(part, 7) == Some(a.write_version)
                    &&& config.accounts_data_slice@.len() == 0 ==> bytes(part, 6) == Some(a.data)
                    &&& config.accounts_data_slice@.len() == 1 ==> {
                        let start = config.accounts_data_slice@[0].offset as int;
                        let end = start + config.accounts_data_slice@[0].length;
                        bytes(part, 6) == Some(
                            if end <= a.data.len() {
                                a.data.subrange(start, end)
                            } else {
                                Seq::empty()
                            },
                        )
                    }
                }
            }
        }),
{
    filter::law_data_slices(filter, config, 0);
    law_sent(updates[0]);
    if let FilteredUpdateType::Account { message, data_slices } = updates[0].filtered_update {
        let payload = update::account_payload(message@, data_slices@);
        assert(payload.len() <= wire::bytes_field(2, payload).len());
        law_sent_account(message@, data_slices@);
    }
}

} // verus!
