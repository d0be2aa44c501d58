//! The places that decoders keep lie within what they decoded.
use vstd::prelude::*;

use crate::decode;
use crate::decode::{
    LimitedDecode, SlotModel, Span, SubscribeUpdateLimitedDecode, TransactionFields,
    TransactionInfoModel, TransactionMessageFields, TransactionMetaFields, TransactionModel,
    UpdateModel, UpdateOneofLimitedDecodeSlot, UpdateOneofLimitedDecodeTransaction,
    UpdateOneofLimitedDecodeTransactionInfo,
};
use crate::fields;
use crate::fields::FieldStep;
use crate::wire;
use crate::wire::WireType;

verus! {

/// A message whose places lie within what was decoded.
pub trait Bounded: FieldStep {
    /// Whether all places of `m` lie before `at`.
    spec fn below(m: Self::M, at: nat) -> bool;

    proof fn lemma_below_later(m: Self::M, at: nat, later: nat)
        requires
            Self::below(m, at),
            at <= later,
        ensures
            Self::below(m, later),
    ;

    proof fn lemma_step_below(m: Self::M, tag: u32, wire_type: WireType, rest: Seq<u8>, at: nat)
        requires
            1 <= at,
            Self::below(m, at),
            Self::step(m, tag, wire_type, rest, at) is Ok,
        ensures
            Self::below(
                Self::step(m, tag, wire_type, rest, at)->Ok_0.0,
                at + Self::step(m, tag, wire_type, rest, at)->Ok_0.1,
            ),
    ;
}

/// The places of a run of fields lie within it.
pub proof fn lemma_fields_below<S: Bounded>(m: S::M, s: Seq<u8>, at: nat, limit: nat)
    requires
        S::below(m, at),
        fields::fields::<S>(m, s, at, limit) is Ok,
    ensures
        ({
            let (mf, k) = fields::fields::<S>(m, s, at, limit)->Ok_0;
            S::below(mf, at + k) && k <= s.len()
        }),
    decreases s.len(),
{
    if s.len() > limit {
        fields::lemma_fields_first::<S>(m, s, at, limit);
        fields::lemma_fields_cons::<S>(m, s, at, limit);
        let (tag, wire_type, n) = wire::key(s)->Some_0;
        let (m1, j) = S::step(m, tag, wire_type, s.skip(n as int), at + n)->Ok_0;
        S::lemma_below_later(m, at, at + n);
        S::lemma_step_below(m, tag, wire_type, s.skip(n as int), at + n);
        lemma_fields_below::<S>(m1, s.skip((n + j) as int), at + n + j, limit);
    }
}

/// The places of a decoded message lie within it.
pub proof fn lemma_all_fields_below<S: Bounded>(m: S::M, s: Seq<u8>)
    requires
        S::below(m, 0),
        fields::all_fields::<S>(m, s) is Ok,
    ensures
        S::below(fields::all_fields::<S>(m, s)->Ok_0, s.len()),
{
    lemma_fields_below::<S>(m, s, 0, 0);
    let (mf, k) = fields::fields::<S>(m, s, 0, 0)->Ok_0;
    S::lemma_below_later(mf, k, s.len());
}

proof fn lemma_nested_below<S: Bounded>(m: S::M, rest: Seq<u8>, at: nat, exact: bool)
    requires
        S::below(m, at),
        decode::nested::<S>(m, rest, at, exact) is Ok,
    ensures
        ({
            let (mf, k) = decode::nested::<S>(m, rest, at, exact)->Ok_0;
            S::below(mf, at + k)
        }),
{
    wire::lemma_varint_bounds(rest);
    let (len, n) = wire::varint(rest)->Some_0;
    S::lemma_below_later(m, at, at + n);
    lemma_fields_below::<S>(m, rest.skip(n as int), at + n, (rest.len() - n - len) as nat);
}

/// Whether a run of bytes, if there is one, lies before `at`.
pub open spec fn span_below(sp: Option<Span>, at: nat) -> bool {
    sp matches Some(sp) ==> sp.start <= sp.end <= at
}

impl Bounded for SubscribeUpdateLimitedDecode {
    open spec fn below(m: UpdateModel, at: nat) -> bool {
        m.update matches Some((tag, sp)) ==> 2 <= sp.start && sp.start <= sp.end <= at
            && decode::is_update_tag(tag)
    }

    proof fn lemma_below_later(m: UpdateModel, at: nat, later: nat) {
    }

    proof fn lemma_step_below(
        m: UpdateModel,
        tag: u32,
        wire_type: WireType,
        rest: Seq<u8>,
        at: nat,
    ) {
        decode::lemma_value_bounds(wire_type, tag, rest, at);
    }
}

impl Bounded for UpdateOneofLimitedDecodeSlot {
    open spec fn below(m: SlotModel, at: nat) -> bool {
        span_below(m.dead_error, at)
    }

    proof fn lemma_below_later(m: SlotModel, at: nat, later: nat) {
    }

    proof fn lemma_step_below(m: SlotModel, tag: u32, wire_type: WireType, rest: Seq<u8>, at: nat) {
        decode::lemma_value_bounds(wire_type, tag, rest, at);
    }
}

impl Bounded for UpdateOneofLimitedDecodeTransaction {
    open spec fn below(m: TransactionModel, at: nat) -> bool {
        span_below(m.transaction, at)
    }

    proof fn lemma_below_later(m: TransactionModel, at: nat, later: nat) {
    }

    proof fn lemma_step_below(
        m: TransactionModel,
        tag: u32,
        wire_type: WireType,
        rest: Seq<u8>,
        at: nat,
    ) {
        decode::lemma_value_bounds(wire_type, tag, rest, at);
    }
}

/// Whether the places of a transaction lie before `at`.
pub open spec fn transaction_info_below(m: TransactionInfoModel, at: nat) -> bool {
    &&& span_below(m.err, at)
    &&& m.signature matches Some(x) ==> x + 64 <= at
}

impl Bounded for TransactionMessageFields {
    open spec fn below(m: TransactionInfoModel, at: nat) -> bool {
        transaction_info_below(m, at)
    }

    proof fn lemma_below_later(m: TransactionInfoModel, at: nat, later: nat) {
    }

    proof fn lemma_step_below(
        m: TransactionInfoModel,
        tag: u32,
        wire_type: WireType,
        rest: Seq<u8>,
        at: nat,
    ) {
    }
}

impl Bounded for TransactionFields {
    open spec fn below(m: TransactionInfoModel, at: nat) -> bool {
        transaction_info_below(m, at)
    }

    proof fn lemma_below_later(m: TransactionInfoModel, at: nat, later: nat) {
    }

    proof fn lemma_step_below(
        m: TransactionInfoModel,
        tag: u32,
        wire_type: WireType,
        rest: Seq<u8>,
        at: nat,
    ) {
        if tag == 2 {
            lemma_nested_below::<TransactionMessageFields>(m, rest, at, false);
        }
    }
}

impl Bounded for TransactionMetaFields {
    open spec fn below(m: TransactionInfoModel, at: nat) -> bool {
        transaction_info_below(m, at)
    }

    proof fn lemma_below_later(m: TransactionInfoModel, at: nat, later: nat) {
    }

    proof fn lemma_step_below(
        m: TransactionInfoModel,
        tag: u32,
        wire_type: WireType,
        rest: Seq<u8>,
        at: nat,
    ) {
        decode::lemma_value_bounds(wire_type, tag, rest, at);
    }
}

impl Bounded for UpdateOneofLimitedDecodeTransactionInfo {
    open spec fn below(m: TransactionInfoModel, at: nat) -> bool {
        transaction_info_below(m, at)
    }

    proof fn lemma_below_later(m: TransactionInfoModel, at: nat, later: nat) {
    }

    proof fn lemma_step_below(
        m: TransactionInfoModel,
        tag: u32,
        wire_type: WireType,
        rest: Seq<u8>,
        at: nat,
    ) {
        decode::lemma_value_bounds(wire_type, tag, rest, at);
        if tag == 3 {
            lemma_nested_below::<TransactionFields>(m, rest, at, false);
        } else if tag == 4 {
            lemma_nested_below::<TransactionMetaFields>(m, rest, at, false);
        }
    }
}

} // verus!
