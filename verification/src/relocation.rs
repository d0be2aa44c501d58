//! How decoded places move when the bytes around them do.
use vstd::prelude::*;

use crate::decode;
use crate::decode::{AccountInfoFields, AccountModel, Span, UpdateOneofLimitedDecodeAccount};
use crate::error;
use crate::fields;
use crate::fields::FieldStep;
use crate::wire;
use crate::wire::WireType;

verus! {

/// A message that only depends on its own bytes, and whose places move with these.
pub trait Relocate: FieldStep {
    /// The message `m` with each place `x` moved to `f(x)`.
    spec fn relocate(f: spec_fn(nat) -> nat, m: Self::M) -> Self::M;

    /// What follows a value does not change it.
    proof fn lemma_step_stable(
        m: Self::M,
        tag: u32,
        wire_type: WireType,
        s: Seq<u8>,
        t: Seq<u8>,
        at: nat,
    )
        requires
            Self::step(m, tag, wire_type, s, at) is Ok,
            Self::step(m, tag, wire_type, s, at)->Ok_0.1 <= t.len(),
            s.take(Self::step(m, tag, wire_type, s, at)->Ok_0.1 as int) == t.take(
                Self::step(m, tag, wire_type, s, at)->Ok_0.1 as int,
            ),
        ensures
            Self::step(m, tag, wire_type, t, at) == Self::step(m, tag, wire_type, s, at),
    ;

    /// A value that lies elsewhere is the same value, with its places moved.
    proof fn lemma_step_relocate(
        f: spec_fn(nat) -> nat,
        m: Self::M,
        tag: u32,
        wire_type: WireType,
        s: Seq<u8>,
        at: nat,
        to: nat,
    )
        requires
            Self::step(m, tag, wire_type, s, at) is Ok,
            forall|x: nat|
                at <= x <= at + Self::step(m, tag, wire_type, s, at)->Ok_0.1 ==> #[trigger] f(x) == x + to - at,
        ensures
            Self::step(Self::relocate(f, m), tag, wire_type, s, to) == Ok::<
                (Self::M, nat),
                error::Failure,
            >(
                (
                    Self::relocate(f, Self::step(m, tag, wire_type, s, at)->Ok_0.0),
                    Self::step(m, tag, wire_type, s, at)->Ok_0.1,
                ),
            ),
    ;
}

/// What follows a run of fields does not change it.
pub proof fn lemma_fields_stable<S: Relocate>(
    m: S::M,
    s: Seq<u8>,
    t: Seq<u8>,
    at: nat,
    limit: nat,
    k: nat,
)
    requires
        fields::fields::<S>(m, s, at, limit) is Ok,
        fields::fields::<S>(m, s, at, limit)->Ok_0.1 == k,
        s.len() == limit + k,
        k <= t.len(),
        s.take(k as int) == t.take(k as int),
    ensures
        fields::fields::<S>(m, t, at, (t.len() - k) as nat) == fields::fields::<S>(m, s, at, limit),
    decreases s.len(),
{
    if s.len() > limit {
        wire::lemma_key_bounds(s);
        let (tag, wire_type, n) = wire::key(s)->Some_0;
        S::lemma_step_bounds(m, tag, wire_type, s.skip(n as int), at + n);
        let (m1, j) = S::step(m, tag, wire_type, s.skip(n as int), at + n)->Ok_0;
        let rest = s.skip((n + j) as int);
        let k2 = fields::fields::<S>(m1, rest, at + n + j, limit)->Ok_0.1;
        wire::lemma_agree(s, t, k as int, 0, n as int);
        wire::lemma_key_stable(s, t);
        wire::lemma_agree(s, t, k as int, n as int, j as int);
        S::lemma_step_stable(m, tag, wire_type, s.skip(n as int), t.skip(n as int), at + n);
        wire::lemma_agree(s, t, k as int, (n + j) as int, k2 as int);
        lemma_fields_stable::<S>(m1, rest, t.skip((n + j) as int), at + n + j, limit, k2);
    }
}

/// The fields of `a` and then those of `b` are the fields of both together.
pub proof fn lemma_fields_concat<S: Relocate>(m: S::M, a: Seq<u8>, b: Seq<u8>, at: nat, limit: nat)
    requires
        fields::fields::<S>(m, a, at, 0) is Ok,
        limit <= b.len(),
    ensures
        fields::fields::<S>(m, a + b, at, limit) == fields::after(
            fields::fields::<S>(
                fields::fields::<S>(m, a, at, 0)->Ok_0.0,
                b,
                at + a.len(),
                limit,
            ),
            a.len(),
        ),
    decreases a.len(),
{
    if a.len() == 0 {
        assert(a + b =~= b);
    } else {
        wire::lemma_key_bounds(a);
        let (tag, wire_type, n) = wire::key(a)->Some_0;
        S::lemma_step_bounds(m, tag, wire_type, a.skip(n as int), at + n);
        let (m1, j) = S::step(m, tag, wire_type, a.skip(n as int), at + n)->Ok_0;
        let rest = a.skip((n + j) as int);
        assert((a + b).take(n as int) =~= a.take(n as int));
        wire::lemma_key_stable(a, a + b);
        assert((a + b).skip(n as int).take(j as int) =~= a.skip(n as int).take(j as int));
        S::lemma_step_stable(m, tag, wire_type, a.skip(n as int), (a + b).skip(n as int), at + n);
        assert((a + b).skip((n + j) as int) =~= rest + b);
        lemma_fields_concat::<S>(m1, rest, b, at + n + j, limit);
    }
}

/// Fields that lie elsewhere are the same fields, with their places moved.
pub proof fn lemma_fields_relocate<S: Relocate>(
    f: spec_fn(nat) -> nat,
    m: S::M,
    s: Seq<u8>,
    at: nat,
    to: nat,
    limit: nat,
)
    requires
        fields::fields::<S>(m, s, at, limit) is Ok,
        forall|x: nat|
            at <= x <= at + fields::fields::<S>(m, s, at, limit)->Ok_0.1 ==> #[trigger] f(x) == x + to - at,
    ensures
        fields::fields::<S>(S::relocate(f, m), s, to, limit) == Ok::<(S::M, nat), error::Failure>(
            (
                S::relocate(f, fields::fields::<S>(m, s, at, limit)->Ok_0.0),
                fields::fields::<S>(m, s, at, limit)->Ok_0.1,
            ),
        ),
    decreases s.len(),
{
    if s.len() > limit {
        wire::lemma_key_bounds(s);
        let (tag, wire_type, n) = wire::key(s)->Some_0;
        S::lemma_step_bounds(m, tag, wire_type, s.skip(n as int), at + n);
        let (m1, j) = S::step(m, tag, wire_type, s.skip(n as int), at + n)->Ok_0;
        S::lemma_step_relocate(f, m, tag, wire_type, s.skip(n as int), at + n, to + n);
        lemma_fields_relocate::<S>(
            f,
            m1,
            s.skip((n + j) as int),
            at + n + j,
            to + n + j,
            limit,
        );
    }
}

/// What follows a delimited value does not change it.
proof fn lemma_delimited_stable(s: Seq<u8>, t: Seq<u8>, at: nat)
    requires
        decode::delimited_at(s, at) is Ok,
        decode::delimited_at(s, at)->Ok_0.1 <= t.len(),
        s.take(decode::delimited_at(s, at)->Ok_0.1 as int) == t.take(
            decode::delimited_at(s, at)->Ok_0.1 as int,
        ),
    ensures
        decode::delimited_at(t, at) == decode::delimited_at(s, at),
{
    wire::lemma_varint_bounds(s);
    let n = decode::delimited_at(s, at)->Ok_0.1;
    let k = wire::varint(s)->Some_0.1;
    wire::lemma_agree(s, t, n as int, 0, k as int);
    wire::lemma_varint_stable(s, t);
}

/// The account `m` with each place `x` moved to `f(x)`.
pub open spec fn relocate_account(f: spec_fn(nat) -> nat, m: AccountModel) -> AccountModel {
    AccountModel {
        account: f(m.account),
        data: Span { start: f(m.data.start), end: f(m.data.end) },
        txn_signature: match m.txn_signature {
            Some(x) => Some(f(x)),
            None => None,
        },
        write_version: match m.write_version {
            Some(x) => Some(f(x)),
            None => None,
        },
        ..m
    }
}

impl Relocate for AccountInfoFields {
    open spec fn relocate(f: spec_fn(nat) -> nat, m: AccountModel) -> AccountModel {
        relocate_account(f, m)
    }

    proof fn lemma_step_stable(
        m: AccountModel,
        tag: u32,
        wire_type: WireType,
        s: Seq<u8>,
        t: Seq<u8>,
        at: nat,
    ) {
        let n = Self::step(m, tag, wire_type, s, at)->Ok_0.1;
        Self::lemma_step_bounds(m, tag, wire_type, s, at);
        if tag == 1 || tag == 3 {
            lemma_delimited_stable(s, t, 0);
            let sp = decode::delimited_at(s, 0)->Ok_0.0;
            decode::lemma_value_bounds(wire_type, tag, s, 0);
            assert(s.subrange(sp.start as int, sp.end as int) =~= s.take(n as int).subrange(
                sp.start as int,
                sp.end as int,
            ));
            assert(t.subrange(sp.start as int, sp.end as int) =~= t.take(n as int).subrange(
                sp.start as int,
                sp.end as int,
            ));
        } else if tag == 2 || tag == 4 || tag == 5 || tag == 7 {
            wire::lemma_varint_stable(s, t);
        } else if tag == 6 || tag == 8 {
            lemma_delimited_stable(s, t, at);
        } else {
            wire::lemma_field_len_stable(wire_type, tag, s, t, wire::RECURSION_LIMIT as nat);
        }
    }

    proof fn lemma_step_relocate(
        f: spec_fn(nat) -> nat,
        m: AccountModel,
        tag: u32,
        wire_type: WireType,
        s: Seq<u8>,
        at: nat,
        to: nat,
    ) {
        decode::lemma_value_bounds(wire_type, tag, s, at);
    }
}

impl Relocate for UpdateOneofLimitedDecodeAccount {
    open spec fn relocate(f: spec_fn(nat) -> nat, m: AccountModel) -> AccountModel {
        relocate_account(f, m)
    }

    proof fn lemma_step_stable(
        m: AccountModel,
        tag: u32,
        wire_type: WireType,
        s: Seq<u8>,
        t: Seq<u8>,
        at: nat,
    ) {
        let n = Self::step(m, tag, wire_type, s, at)->Ok_0.1;
        Self::lemma_step_bounds(m, tag, wire_type, s, at);
        if tag == 1 {
            wire::lemma_varint_bounds(s);
            let (len, k) = wire::varint(s)->Some_0;
            wire::lemma_agree(s, t, n as int, 0, k as int);
            wire::lemma_varint_stable(s, t);
            wire::lemma_agree(s, t, n as int, k as int, len as int);
            lemma_fields_stable::<AccountInfoFields>(
                AccountModel { account: at, ..m },
                s.skip(k as int),
                t.skip(k as int),
                at + k,
                (s.len() - k - len) as nat,
                len as nat,
            );
        } else if tag == 2 || tag == 3 {
            wire::lemma_varint_stable(s, t);
        } else {
            wire::lemma_field_len_stable(wire_type, tag, s, t, wire::RECURSION_LIMIT as nat);
        }
    }

    proof fn lemma_step_relocate(
        f: spec_fn(nat) -> nat,
        m: AccountModel,
        tag: u32,
        wire_type: WireType,
        s: Seq<u8>,
        at: nat,
        to: nat,
    ) {
        if tag == 1 {
            wire::lemma_varint_bounds(s);
            let (len, k) = wire::varint(s)->Some_0;
            lemma_fields_relocate::<AccountInfoFields>(
                f,
                AccountModel { account: at, ..m },
                s.skip(k as int),
                at + k,
                to + k,
                (s.len() - k - len) as nat,
            );
        }
    }
}

} // verus!
