//! What becomes of an account update when its write version is replaced in place.
use vstd::prelude::*;

use crate::decode;
use crate::decode::{AccountInfoFields, AccountModel, Span, UpdateOneofLimitedDecodeAccount};
use crate::error;
use crate::fields;
use crate::fields::FieldStep;
use crate::relocation;
use crate::relocation::Relocate;
use crate::wire;
use crate::wire::WireType;

verus! {

/// The account fields `s` with `v` in place of the write version at `w`.
pub open spec fn splice_inner(s: Seq<u8>, w: int, v: u64) -> Seq<u8> {
    s.take(w) + wire::varint_bytes(v as nat) + s.skip(w + wire::varint(s.skip(w))->Some_0.1)
}

/// The length of the account at `a` once `v` has taken the place of the write version at `w`.
pub open spec fn spliced_len(s: Seq<u8>, a: int, w: int, v: u64) -> int {
    wire::varint(s.skip(a))->Some_0.0 + wire::varint_bytes(v as nat).len() - wire::varint(
        s.skip(w),
    )->Some_0.1
}

/// The account update `s` with `v` in place of the write version at `w`, and with the length
/// prefix at `a` of the account that holds it set right.
pub open spec fn splice(s: Seq<u8>, a: int, w: int, v: u64) -> Seq<u8> {
    s.take(a) + wire::varint_bytes(spliced_len(s, a, w, v) as nat) + s.subrange(
        a + wire::varint(s.skip(a))->Some_0.1,
        w,
    ) + wire::varint_bytes(v as nat) + s.skip(w + wire::varint(s.skip(w))->Some_0.1)
}

/// How far the splice moves what lies between the length prefix and the write version.
pub open spec fn splice_shift_before(s: Seq<u8>, a: int, w: int, v: u64) -> int {
    wire::varint_bytes(spliced_len(s, a, w, v) as nat).len() - wire::varint(s.skip(a))->Some_0.1
}

/// How far the splice moves what follows the write version, beyond that.
pub open spec fn splice_shift_after(s: Seq<u8>, w: int, v: u64) -> int {
    wire::varint_bytes(v as nat).len() - wire::varint(s.skip(w))->Some_0.1
}

/// Whether `f` moves the places of the update `s`, which lies at `at`, as the splice does.
#[verifier::opaque]
pub open spec fn moves(f: spec_fn(nat) -> nat, s: Seq<u8>, at: nat, a: int, w: int, v: u64) -> bool {
    let d1 = splice_shift_before(s, a, w, v);
    let d2 = splice_shift_after(s, w, v);
    &&& forall|x: nat| x <= at + a ==> #[trigger] f(x) == x
    &&& forall|x: nat|
        at + a + wire::varint(s.skip(a))->Some_0.1 <= x <= at + w ==> #[trigger] f(x) == x + d1
    &&& forall|x: nat|
        at + w + wire::varint(s.skip(w))->Some_0.1 <= x ==> #[trigger] f(x) == x + d1 + d2
}

/// The place of the write version, 0 where there is none.
pub open spec fn version_place(m: AccountModel) -> nat {
    match m.write_version {
        Some(w) => w,
        None => 0,
    }
}

/// All places of `m` but that of the account lie before `at`.
pub open spec fn places_below(m: AccountModel, at: nat) -> bool {
    &&& m.data.start <= m.data.end <= at
    &&& m.txn_signature matches Some(x) ==> x + 64 <= at
    &&& m.write_version matches Some(w) ==> w < at
}

proof fn lemma_info_places(m: AccountModel, s: Seq<u8>, at: nat, limit: nat)
    requires
        fields::fields::<AccountInfoFields>(m, s, at, limit) is Ok,
        places_below(m, at),
    ensures
        ({
            let (mf, k) = fields::fields::<AccountInfoFields>(m, s, at, limit)->Ok_0;
            &&& places_below(mf, at + k)
            &&& mf.write_version == m.write_version || at < version_place(mf) < at + k
            &&& mf.account == m.account
            &&& k <= s.len()
        }),
    decreases s.len(),
{
    fields::lemma_fields_bounds::<AccountInfoFields>(m, s, at, limit);
    if s.len() > limit {
        wire::lemma_key_bounds(s);
        let (tag, wire_type, n) = wire::key(s)->Some_0;
        let rest = s.skip(n as int);
        AccountInfoFields::lemma_step_bounds(m, tag, wire_type, rest, at + n);
        decode::lemma_value_bounds(wire_type, tag, rest, at + n);
        let (m1, j) = AccountInfoFields::step(m, tag, wire_type, rest, at + n)->Ok_0;
        lemma_info_places(m1, s.skip((n + j) as int), at + n + j, limit);
    }
}

proof fn lemma_info_data(m: AccountModel, s: Seq<u8>, at: nat, limit: nat)
    requires
        fields::fields::<AccountInfoFields>(m, s, at, limit) is Ok,
    ensures
        ({
            let (mf, k) = fields::fields::<AccountInfoFields>(m, s, at, limit)->Ok_0;
            &&& mf.data == m.data || at < mf.data.start
            &&& mf.txn_signature == m.txn_signature || (mf.txn_signature matches Some(x) && at < x)
        }),
    decreases s.len(),
{
    if s.len() > limit {
        wire::lemma_key_bounds(s);
        let (tag, wire_type, n) = wire::key(s)->Some_0;
        let rest = s.skip(n as int);
        AccountInfoFields::lemma_step_bounds(m, tag, wire_type, rest, at + n);
        decode::lemma_value_bounds(wire_type, tag, rest, at + n);
        let (m1, j) = AccountInfoFields::step(m, tag, wire_type, rest, at + n)->Ok_0;
        lemma_info_data(m1, s.skip((n + j) as int), at + n + j, limit);
    }
}

proof fn lemma_nested_places(m: AccountModel, rest: Seq<u8>, at: nat)
    requires
        decode::nested::<AccountInfoFields>(m, rest, at, true) is Ok,
        places_below(m, at),
    ensures
        ({
            let (mf, k) = decode::nested::<AccountInfoFields>(m, rest, at, true)->Ok_0;
            &&& places_below(mf, at + k)
            &&& mf.account == m.account
            &&& 1 <= k
        }),
{
    wire::lemma_varint_bounds(rest);
    let (len, n) = wire::varint(rest)->Some_0;
    lemma_info_places(m, rest.skip(n as int), at + n, (rest.len() - n - len) as nat);
}

/// The places of a decoded account update lie within it, and the account is the last one.
pub proof fn lemma_update_places(m: AccountModel, s: Seq<u8>, at: nat)
    requires
        fields::fields::<UpdateOneofLimitedDecodeAccount>(m, s, at, 0) is Ok,
        places_below(m, at),
    ensures
        ({
            let (mf, k) = fields::fields::<UpdateOneofLimitedDecodeAccount>(m, s, at, 0)->Ok_0;
            &&& places_below(mf, at + k)
            &&& k == s.len()
            &&& at < mf.account < at + k || (mf.account == m.account && mf.write_version
                == m.write_version && mf.data == m.data && mf.txn_signature == m.txn_signature)
        }),
    decreases s.len(),
{
    if s.len() > 0 {
        wire::lemma_key_bounds(s);
        let (tag, wire_type, n) = wire::key(s)->Some_0;
        let rest = s.skip(n as int);
        UpdateOneofLimitedDecodeAccount::lemma_step_bounds(m, tag, wire_type, rest, at + n);
        decode::lemma_value_bounds(wire_type, tag, rest, at + n);
        if tag == 1 {
            lemma_nested_places(AccountModel { account: at + n, ..m }, rest, at + n);
        }
        let (m1, j) = UpdateOneofLimitedDecodeAccount::step(m, tag, wire_type, rest, at + n)->Ok_0;
        lemma_update_places(m1, s.skip((n + j) as int), at + n + j);
    }
}

/// What the splice leaves as it is, before the write version.
proof fn lemma_splice_inner_rest(s: Seq<u8>, c: int, w: int, v: u64)
    requires
        0 <= c <= w,
        w <= s.len(),
        w + wire::varint(s.skip(w))->Some_0.1 <= s.len(),
    ensures
        s.skip(c).skip(w - c) == s.skip(w),
        splice_inner(s, w, v).skip(c) == splice_inner(s.skip(c), w - c, v),
        splice_inner(s, w, v).take(c) == s.take(c),
        splice_inner(s, w, v).len() == c + splice_inner(s.skip(c), w - c, v).len(),
        splice_inner(s, w, v).skip(w) == wire::varint_bytes(v as nat) + s.skip(
            w + wire::varint(s.skip(w))->Some_0.1,
        ),
{
    let size = wire::varint(s.skip(w))->Some_0.1;
    assert(s.skip(c).skip(w - c) =~= s.skip(w));
    assert(s.skip(c).skip(w - c + size) =~= s.skip(w + size));
    assert(s.skip(c).take(w - c) =~= s.take(w).skip(c));
    assert(splice_inner(s, w, v).skip(c) =~= splice_inner(s.skip(c), w - c, v));
    assert(splice_inner(s, w, v).take(c) =~= s.take(c));
    assert(splice_inner(s, w, v).skip(w) =~= wire::varint_bytes(v as nat) + s.skip(w + size));
}

/// Only a field with the tag of the write version sets it.
proof fn lemma_info_step_write_version(
    m: AccountModel,
    tag: u32,
    wire_type: WireType,
    rest: Seq<u8>,
    at: nat,
)
    requires
        AccountInfoFields::step(m, tag, wire_type, rest, at) is Ok,
        places_below(m, at),
    ensures
        ({
            let (m1, j) = AccountInfoFields::step(m, tag, wire_type, rest, at)->Ok_0;
            &&& j <= rest.len()
            &&& places_below(m1, at + j)
            &&& tag != 7 ==> m1.write_version == m.write_version
            &&& tag == 7 ==> {
                &&& wire_type == WireType::Varint
                &&& wire::varint(rest) is Some
                &&& wire::varint(rest)->Some_0.1 == j
                &&& m1 == (AccountModel { write_version: Some(at), ..m })
            }
        }),
{
    decode::lemma_value_bounds(wire_type, tag, rest, at);
    AccountInfoFields::lemma_step_bounds(m, tag, wire_type, rest, at);
}

/// There is a varint where the write version is.
proof fn lemma_write_version_at(m: AccountModel, s: Seq<u8>, at: nat)
    requires
        fields::fields::<AccountInfoFields>(m, s, at, 0) is Ok,
        places_below(m, at),
        version_place(fields::fields::<AccountInfoFields>(m, s, at, 0)->Ok_0.0) > at,
    ensures
        ({
            let w = version_place(fields::fields::<AccountInfoFields>(m, s, at, 0)->Ok_0.0) - at;
            &&& 0 < w < s.len()
            &&& wire::varint(s.skip(w)) is Some
            &&& w + wire::varint(s.skip(w))->Some_0.1 <= s.len()
        }),
    decreases s.len(),
{
    let mf = fields::fields::<AccountInfoFields>(m, s, at, 0)->Ok_0.0;
    let w = version_place(mf) - at;
    fields::lemma_fields_first::<AccountInfoFields>(m, s, at, 0);
    fields::lemma_fields_cons::<AccountInfoFields>(m, s, at, 0);
    let (tag, wire_type, n) = wire::key(s)->Some_0;
    let value = s.skip(n as int);
    lemma_info_step_write_version(m, tag, wire_type, value, at + n);
    let (m1, j) = AccountInfoFields::step(m, tag, wire_type, value, at + n)->Ok_0;
    let rest = s.skip((n + j) as int);
    lemma_info_places(m1, rest, at + n + j, 0);
    if version_place(mf) > at + n + j {
        lemma_write_version_at(m1, rest, at + n + j);
        assert(rest.skip(w - n - j) =~= s.skip(w));
    } else {
        wire::lemma_varint_bounds(value);
    }
}

#[verifier::rlimit(100)]
#[verifier::spinoff_prover]
proof fn lemma_splice_inner(
    f: spec_fn(nat) -> nat,
    m: AccountModel,
    s: Seq<u8>,
    at: nat,
    to: nat,
    v: u64,
)
    requires
        fields::fields::<AccountInfoFields>(m, s, at, 0) is Ok,
        places_below(m, at),
        version_place(fields::fields::<AccountInfoFields>(m, s, at, 0)->Ok_0.0) > at,
        ({
            let p = version_place(fields::fields::<AccountInfoFields>(m, s, at, 0)->Ok_0.0);
            let size = wire::varint(s.skip(p - at))->Some_0.1;
            let d = wire::varint_bytes(v as nat).len() - size;
            &&& forall|x: nat| at <= x <= p ==> #[trigger] f(x) == x + to - at
            &&& forall|x: nat| p + size <= x ==> #[trigger] f(x) == x + to - at + d
        }),
    ensures
        ({
            let mf = fields::fields::<AccountInfoFields>(m, s, at, 0)->Ok_0.0;
            let t = splice_inner(s, version_place(mf) - at, v);
            fields::fields::<AccountInfoFields>(relocation::relocate_account(f, m), t, to, 0)
                == Ok::<(AccountModel, nat), error::Failure>(
                (relocation::relocate_account(f, mf), t.len()),
            )
        }),
    decreases s.len(),
{
    let mf = fields::fields::<AccountInfoFields>(m, s, at, 0)->Ok_0.0;
    let w = version_place(mf) - at;
    lemma_write_version_at(m, s, at);
    fields::lemma_fields_first::<AccountInfoFields>(m, s, at, 0);
    fields::lemma_fields_cons::<AccountInfoFields>(m, s, at, 0);
    let (tag, wire_type, n) = wire::key(s)->Some_0;
    let value = s.skip(n as int);
    lemma_info_step_write_version(m, tag, wire_type, value, at + n);
    let (m1, j) = AccountInfoFields::step(m, tag, wire_type, value, at + n)->Ok_0;
    let rest = s.skip((n + j) as int);
    lemma_info_places(m1, rest, at + n + j, 0);
    let t = splice_inner(s, w, v);
    let vb = wire::varint_bytes(v as nat);
    if version_place(mf) > at + n + j {
        lemma_splice_inner_rest(s, (n + j) as int, w, v);
        lemma_splice_inner(f, m1, rest, at + n + j, to + n + j, v);
        lemma_splice_inner_rest(s, n as int, w, v);
        wire::lemma_key_stable(s, t);
        assert(t.skip(n as int).take(j as int) =~= t.take((n + j) as int).skip(n as int));
        assert(value.take(j as int) =~= s.take((n + j) as int).skip(n as int));
        AccountInfoFields::lemma_step_relocate(f, m, tag, wire_type, value, at + n, to + n);
        AccountInfoFields::lemma_step_stable(
            relocation::relocate_account(f, m),
            tag,
            wire_type,
            value,
            t.skip(n as int),
            to + n,
        );
        fields::lemma_fields_cons::<AccountInfoFields>(
            relocation::relocate_account(f, m),
            t,
            to,
            0,
        );
    } else {
        lemma_splice_inner_rest(s, n as int, w, v);
        wire::lemma_varint_len(v);
        wire::lemma_key_stable(s, t);
        wire::lemma_varint_round_trip(v, rest);
        relocation::lemma_fields_relocate::<AccountInfoFields>(
            f,
            m1,
            rest,
            at + n + j,
            (to + n + vb.len()) as nat,
            0,
        );
        assert(t.skip((n + vb.len()) as int) =~= t.skip(n as int).skip(vb.len() as int));
        assert(t.skip((n + vb.len()) as int) =~= rest);
        fields::lemma_fields_bounds::<AccountInfoFields>(m1, rest, at + n + j, 0);
        fields::lemma_fields_cons::<AccountInfoFields>(
            relocation::relocate_account(f, m),
            t,
            to,
            0,
        );
    }
}

/// Where the length prefix and the write version of an update lie.
pub open spec fn splice_points(s: Seq<u8>, a: int, w: int) -> bool {
    &&& 0 < a
    &&& wire::varint(s.skip(a)) is Some
    &&& wire::varint(s.skip(w)) is Some
    &&& a + wire::varint(s.skip(a))->Some_0.1 < w
    &&& w + wire::varint(s.skip(w))->Some_0.1 <= a + wire::varint(s.skip(a))->Some_0.1
        + wire::varint(s.skip(a))->Some_0.0 <= s.len()
}

/// What the splice leaves as it is, before the length prefix.
proof fn lemma_splice_rest(s: Seq<u8>, c: int, a: int, w: int, v: u64)
    requires
        0 <= c <= a,
        a <= s.len(),
        w <= s.len(),
        a + wire::varint(s.skip(a))->Some_0.1 < w,
        w + wire::varint(s.skip(w))->Some_0.1 <= s.len(),
    ensures
        s.skip(c).skip(a - c) == s.skip(a),
        s.skip(c).skip(w - c) == s.skip(w),
        splice(s, a, w, v).skip(c) == splice(s.skip(c), a - c, w - c, v),
        splice(s, a, w, v).take(c) == s.take(c),
        splice(s, a, w, v).len() == c + splice(s.skip(c), a - c, w - c, v).len(),
{
    let n0 = wire::varint(s.skip(a))->Some_0.1;
    let size = wire::varint(s.skip(w))->Some_0.1;
    assert(s.skip(c).skip(a - c) =~= s.skip(a));
    assert(s.skip(c).skip(w - c) =~= s.skip(w));
    assert(s.skip(c).skip(w - c + size) =~= s.skip(w + size));
    assert(s.skip(c).take(a - c) =~= s.take(a).skip(c));
    assert(s.skip(c).subrange(a - c + n0, w - c) =~= s.subrange(a + n0, w));
    assert(splice(s, a, w, v).skip(c) =~= splice(s.skip(c), a - c, w - c, v));
    assert(splice(s, a, w, v).take(c) =~= s.take(c));
}

/// The splice, seen from the length prefix on: the new length, the account with the new write
/// version, and what follows the account.
pub proof fn lemma_splice_account(s: Seq<u8>, a: int, w: int, v: u64)
    requires
        splice_points(s, a, w),
    ensures
        ({
            let (len, n0) = wire::varint(s.skip(a))->Some_0;
            let inner = s.skip(a + n0).take(len as int);
            let rest = s.skip(a + n0 + len);
            let inner1 = splice_inner(inner, w - a - n0, v);
            &&& wire::varint(inner.skip(w - a - n0)) == wire::varint(s.skip(w))
            &&& inner1.len() == spliced_len(s, a, w, v)
            &&& 0 <= spliced_len(s, a, w, v)
            &&& s.len() + 10 <= u64::MAX ==> spliced_len(s, a, w, v) <= u64::MAX
            &&& splice(s, a, w, v).skip(a) == wire::varint_bytes(
                spliced_len(s, a, w, v) as nat,
            ) + (inner1 + rest)
        }),
{
    let (len, n0) = wire::varint(s.skip(a))->Some_0;
    let size = wire::varint(s.skip(w))->Some_0.1;
    let inner = s.skip(a + n0).take(len as int);
    let rest = s.skip(a + n0 + len);
    let iw = w - a - n0;
    wire::lemma_varint_bounds(s.skip(w));
    wire::lemma_varint_len(v);
    assert(inner.skip(iw).take(size as int) =~= s.skip(w).take(size as int));
    wire::lemma_varint_stable(s.skip(w), inner.skip(iw));
    let inner1 = splice_inner(inner, iw, v);
    assert(inner.take(iw) =~= s.subrange(a + n0, w));
    assert(inner.skip(iw + size) + rest =~= s.skip(w + size));
    assert(splice(s, a, w, v).skip(a) =~= wire::varint_bytes(spliced_len(s, a, w, v) as nat) + (
    inner1 + rest));
}

/// The splice moves the places of the bytes that follow the first `c` as it moves all places.
proof fn lemma_moves_rest(
    f: spec_fn(nat) -> nat,
    s: Seq<u8>,
    at: nat,
    c: nat,
    a: int,
    w: int,
    v: u64,
)
    requires
        moves(f, s, at, a, w, v),
        0 <= c <= a < w <= s.len(),
    ensures
        moves(f, s.skip(c as int), at + c, a - c, w - c, v),
{
    reveal(moves);
    assert(s.skip(c as int).skip(a - c) =~= s.skip(a));
    assert(s.skip(c as int).skip(w - c) =~= s.skip(w));
}

/// The first field of an update, and what follows it: the account is in the one or in the other.
proof fn lemma_update_first(m: AccountModel, s: Seq<u8>, at: nat)
    requires
        fields::fields::<UpdateOneofLimitedDecodeAccount>(m, s, at, 0) is Ok,
        places_below(m, at),
        m.account != fields::fields::<UpdateOneofLimitedDecodeAccount>(m, s, at, 0)->Ok_0.0.account,
    ensures
        wire::key(s) is Some,
        ({
            let mf = fields::fields::<UpdateOneofLimitedDecodeAccount>(m, s, at, 0)->Ok_0.0;
            let (tag, wire_type, n) = wire::key(s)->Some_0;
            let value = s.skip(n as int);
            let step = UpdateOneofLimitedDecodeAccount::step(m, tag, wire_type, value, at + n);
            let (m1, j) = step->Ok_0;
            let rest = fields::fields::<UpdateOneofLimitedDecodeAccount>(
                m1,
                s.skip((n + j) as int),
                at + n + j,
                0,
            );
            &&& step is Ok
            &&& 1 <= n
            &&& n + j <= s.len()
            &&& places_below(m1, at + n + j)
            &&& rest == Ok::<(AccountModel, nat), error::Failure>((mf, (s.len() - n - j) as nat))
            &&& mf.account > at + n + j ==> m1.account != mf.account
            &&& mf.account <= at + n + j ==> {
                &&& tag == 1
                &&& wire_type == WireType::LengthDelimited
                &&& mf.account == at + n
                &&& m1.account == at + n
                &&& m1.write_version == mf.write_version
                &&& m1.data == mf.data
                &&& m1.txn_signature == mf.txn_signature
                &&& decode::nested::<AccountInfoFields>(
                    AccountModel { account: at + n, ..m },
                    value,
                    at + n,
                    true,
                ) == Ok::<(AccountModel, nat), error::Failure>((m1, j))
            }
        }),
{
    fields::lemma_fields_first::<UpdateOneofLimitedDecodeAccount>(m, s, at, 0);
    fields::lemma_fields_cons::<UpdateOneofLimitedDecodeAccount>(m, s, at, 0);
    let (tag, wire_type, n) = wire::key(s)->Some_0;
    let value = s.skip(n as int);
    let (m1, j) = UpdateOneofLimitedDecodeAccount::step(m, tag, wire_type, value, at + n)->Ok_0;
    let rest = s.skip((n + j) as int);
    lemma_update_step_places(m, tag, wire_type, value, at + n);
    lemma_update_places(m1, rest, at + n + j);
}

/// Where the account of an update and its write version lie.
#[verifier::rlimit(100)]
#[verifier::spinoff_prover]
pub proof fn lemma_splice_points(m: AccountModel, s: Seq<u8>, at: nat)
    requires
        fields::fields::<UpdateOneofLimitedDecodeAccount>(m, s, at, 0) is Ok,
        places_below(m, at),
        ({
            let mf = fields::fields::<UpdateOneofLimitedDecodeAccount>(m, s, at, 0)->Ok_0.0;
            &&& m.account != mf.account
            &&& at < mf.account < version_place(mf)
        }),
    ensures
        ({
            let mf = fields::fields::<UpdateOneofLimitedDecodeAccount>(m, s, at, 0)->Ok_0.0;
            splice_points(s, mf.account - at, version_place(mf) - at)
        }),
    decreases s.len(),
{
    let mf = fields::fields::<UpdateOneofLimitedDecodeAccount>(m, s, at, 0)->Ok_0.0;
    let a = mf.account - at;
    let w = version_place(mf) - at;
    lemma_update_first(m, s, at);
    let (tag, wire_type, n) = wire::key(s)->Some_0;
    let value = s.skip(n as int);
    let (m1, j) = UpdateOneofLimitedDecodeAccount::step(m, tag, wire_type, value, at + n)->Ok_0;
    let rest = s.skip((n + j) as int);
    if mf.account > at + n + j {
        lemma_splice_points(m1, rest, at + n + j);
        assert(rest.skip(a - n - j) =~= s.skip(a));
        assert(rest.skip(w - n - j) =~= s.skip(w));
    } else {
        let ma = AccountModel { account: mf.account, ..m };
        lemma_points_here(ma, value, mf.account);
        assert(value.skip(w - n) =~= s.skip(w));
    }
}

/// Where the write version of a nested account lies.
proof fn lemma_points_here(m: AccountModel, value: Seq<u8>, at: nat)
    requires
        decode::nested::<AccountInfoFields>(m, value, at, true) is Ok,
        places_below(m, at),
        version_place(decode::nested::<AccountInfoFields>(m, value, at, true)->Ok_0.0) > at,
    ensures
        ({
            let w = version_place(decode::nested::<AccountInfoFields>(m, value, at, true)->Ok_0.0)
                - at;
            let (len, n) = wire::varint(value)->Some_0;
            &&& wire::varint(value) is Some
            &&& wire::varint(value.skip(w)) is Some
            &&& n < w
            &&& w + wire::varint(value.skip(w))->Some_0.1 <= n + len <= value.len()
        }),
{
    let (len, n) = wire::varint(value)->Some_0;
    lemma_nested_inner(m, value, at);
    let inner = value.skip(n as int).take(len as int);
    lemma_info_places(m, inner, at + n, 0);
    lemma_write_version_at(m, inner, at + n);
    let mf = decode::nested::<AccountInfoFields>(m, value, at, true)->Ok_0.0;
    let w = version_place(mf) - at;
    let iw = w - n;
    let size = wire::varint(inner.skip(iw))->Some_0.1;
    assert(value.skip(w).take(size as int) =~= inner.skip(iw).take(size as int));
    wire::lemma_varint_bounds(inner.skip(iw));
    wire::lemma_varint_stable(inner.skip(iw), value.skip(w));
}

/// Only a field with the tag of the account sets its place and its write version.
proof fn lemma_update_step_places(
    m: AccountModel,
    tag: u32,
    wire_type: WireType,
    rest: Seq<u8>,
    at: nat,
)
    requires
        UpdateOneofLimitedDecodeAccount::step(m, tag, wire_type, rest, at) is Ok,
        places_below(m, at),
    ensures
        ({
            let (m1, j) = UpdateOneofLimitedDecodeAccount::step(m, tag, wire_type, rest, at)->Ok_0;
            &&& j <= rest.len()
            &&& places_below(m1, at + j)
            &&& tag != 1 ==> m1.account == m.account && m1.write_version == m.write_version
            &&& tag == 1 ==> {
                &&& wire_type == WireType::LengthDelimited
                &&& m1.account == at
                &&& decode::nested::<AccountInfoFields>(
                    AccountModel { account: at, ..m },
                    rest,
                    at,
                    true,
                ) == Ok::<(AccountModel, nat), error::Failure>((m1, j))
            }
        }),
{
    decode::lemma_value_bounds(wire_type, tag, rest, at);
    UpdateOneofLimitedDecodeAccount::lemma_step_bounds(m, tag, wire_type, rest, at);
    if tag == 1 {
        lemma_nested_places(AccountModel { account: at, ..m }, rest, at);
    }
}

/// The fields of a nested account are those of the bytes that its length prefix counts.
proof fn lemma_nested_inner(m: AccountModel, rest: Seq<u8>, at: nat)
    requires
        decode::nested::<AccountInfoFields>(m, rest, at, true) is Ok,
    ensures
        ({
            let (len, n) = wire::varint(rest)->Some_0;
            let (m1, k) = decode::nested::<AccountInfoFields>(m, rest, at, true)->Ok_0;
            &&& wire::varint(rest) is Some
            &&& 1 <= n
            &&& k == n + len <= rest.len()
            &&& fields::fields::<AccountInfoFields>(
                m,
                rest.skip(n as int).take(len as int),
                at + n,
                0,
            ) == Ok::<(AccountModel, nat), error::Failure>((m1, len as nat))
        }),
{
    wire::lemma_varint_bounds(rest);
    let (len, n) = wire::varint(rest)->Some_0;
    let tail = rest.skip(n as int);
    let inner = tail.take(len as int);
    assert(tail.take(len as int) =~= inner.take(len as int));
    relocation::lemma_fields_stable::<AccountInfoFields>(
        m,
        tail,
        inner,
        at + n,
        (tail.len() - len) as nat,
        len as nat,
    );
}

/// A nested account that is made of a length prefix, as many bytes, and whatever follows.
proof fn lemma_nested_outer(m: AccountModel, inner: Seq<u8>, rest: Seq<u8>, at: nat)
    requires
        inner.len() <= u64::MAX,
        fields::fields::<AccountInfoFields>(
            m,
            inner,
            at + wire::varint_bytes(inner.len()).len(),
            0,
        ) is Ok,
    ensures
        decode::nested::<AccountInfoFields>(
            m,
            wire::varint_bytes(inner.len()) + (inner + rest),
            at,
            true,
        ) == Ok::<(AccountModel, nat), error::Failure>(
            (
                fields::fields::<AccountInfoFields>(
                    m,
                    inner,
                    at + wire::varint_bytes(inner.len()).len(),
                    0,
                )->Ok_0.0,
                wire::varint_bytes(inner.len()).len() + inner.len(),
            ),
        ),
{
    let lb = wire::varint_bytes(inner.len());
    let s = lb + (inner + rest);
    wire::lemma_varint_round_trip(inner.len() as u64, inner + rest);
    assert(s.skip(lb.len() as int) =~= inner + rest);
    assert((inner + rest).take(inner.len() as int) =~= inner.take(inner.len() as int));
    fields::lemma_fields_bounds::<AccountInfoFields>(m, inner, at + lb.len(), 0);
    relocation::lemma_fields_stable::<AccountInfoFields>(
        m,
        inner,
        inner + rest,
        at + lb.len(),
        0,
        inner.len(),
    );
}

/// A field before the account, which the splice leaves as it is.
#[verifier::spinoff_prover]
proof fn lemma_splice_before(
    m: AccountModel,
    s: Seq<u8>,
    at: nat,
    a: int,
    w: int,
    v: u64,
)
    requires
        splice_points(s, a, w),
        wire::key(s) is Some,
        ({
            let (tag, wire_type, n) = wire::key(s)->Some_0;
            let step = UpdateOneofLimitedDecodeAccount::step(
                m,
                tag,
                wire_type,
                s.skip(n as int),
                at + n,
            );
            &&& step is Ok
            &&& 1 <= n
            &&& n + step->Ok_0.1 < a
        }),
    ensures
        ({
            let (tag, wire_type, n) = wire::key(s)->Some_0;
            let (m1, j) = UpdateOneofLimitedDecodeAccount::step(
                m,
                tag,
                wire_type,
                s.skip(n as int),
                at + n,
            )->Ok_0;
            let t1 = splice(s.skip((n + j) as int), a - n - j, w - n - j, v);
            &&& splice(s, a, w, v).len() == n + j + t1.len()
            &&& fields::fields::<UpdateOneofLimitedDecodeAccount>(m, splice(s, a, w, v), at, 0)
                == fields::after(
                fields::fields::<UpdateOneofLimitedDecodeAccount>(m1, t1, at + n + j, 0),
                n + j,
            )
        }),
{
    let t = splice(s, a, w, v);
    let (tag, wire_type, n) = wire::key(s)->Some_0;
    let value = s.skip(n as int);
    let (m1, j) = UpdateOneofLimitedDecodeAccount::step(m, tag, wire_type, value, at + n)->Ok_0;
    lemma_splice_rest(s, n as int, a, w, v);
    lemma_splice_rest(s, (n + j) as int, a, w, v);
    wire::lemma_key_stable(s, t);
    assert(t.skip(n as int).take(j as int) =~= t.take((n + j) as int).skip(n as int));
    assert(value.take(j as int) =~= s.take((n + j) as int).skip(n as int));
    UpdateOneofLimitedDecodeAccount::lemma_step_stable(
        m,
        tag,
        wire_type,
        value,
        t.skip(n as int),
        at + n,
    );
    fields::lemma_fields_cons::<UpdateOneofLimitedDecodeAccount>(m, t, at, 0);
}

/// The account itself and what follows it, once another write version is spliced in.
#[verifier::rlimit(100)]
#[verifier::spinoff_prover]
proof fn lemma_splice_here(
    f: spec_fn(nat) -> nat,
    m: AccountModel,
    s: Seq<u8>,
    at: nat,
    v: u64,
    mf: AccountModel,
    m1: AccountModel,
    j: nat,
)
    requires
        places_below(m, at),
        wire::key(s) is Some,
        wire::key(s)->Some_0.0 == 1,
        ({
            let (tag, wire_type, n) = wire::key(s)->Some_0;
            let w = version_place(mf) - at;
            &&& 1 <= n <= s.len()
            &&& wire_type == WireType::LengthDelimited
            &&& UpdateOneofLimitedDecodeAccount::step(
                m,
                tag,
                wire_type,
                s.skip(n as int),
                at + n,
            ) == Ok::<(AccountModel, nat), error::Failure>((m1, j))
            &&& m1.account == at + n < version_place(m1)
            &&& m1.write_version == mf.write_version
            &&& splice_points(s, n as int, w)
            &&& moves(f, s, at, n as int, w, v)
            &&& fields::fields::<UpdateOneofLimitedDecodeAccount>(
                m1,
                s.skip((n + j) as int),
                at + n + j,
                0,
            ) is Ok
            &&& fields::fields::<UpdateOneofLimitedDecodeAccount>(
                m1,
                s.skip((n + j) as int),
                at + n + j,
                0,
            )->Ok_0.0 == mf
        }),
        s.len() + 10 <= u64::MAX,
    ensures
        ({
            let t = splice(
                s,
                wire::key(s)->Some_0.2 as int,
                version_place(mf) - at,
                v,
            );
            fields::fields::<UpdateOneofLimitedDecodeAccount>(m, t, at, 0) == Ok::<
                (AccountModel, nat),
                error::Failure,
            >((relocation::relocate_account(f, mf), t.len()))
        }),
{
    let (tag, wire_type, n) = wire::key(s)->Some_0;
    let a = n as int;
    let w = version_place(mf) - at;
    let t = splice(s, a, w, v);
    let rest = s.skip((n + j) as int);
    lemma_splice_rest(s, a, a, w, v);
    wire::lemma_key_stable(s, t);
    lemma_splice_at(f, m, s, at, v, m1, j);
    let j1 = (wire::varint_bytes(spliced_len(s, a, w, v) as nat).len() + spliced_len(
        s,
        a,
        w,
        v,
    )) as nat;
    assert(forall|x: nat| at + n + j <= x ==> #[trigger] f(x) == x + (at + n + j1) - (at + n + j))
        by {
        reveal(moves);
    }
    relocation::lemma_fields_relocate::<UpdateOneofLimitedDecodeAccount>(
        f,
        m1,
        rest,
        at + n + j,
        at + n + j1,
        0,
    );
    fields::lemma_fields_bounds::<UpdateOneofLimitedDecodeAccount>(m1, rest, at + n + j, 0);
    assert(t.skip((n + j1) as int) =~= t.skip(n as int).skip(j1 as int));
    fields::lemma_fields_cons::<UpdateOneofLimitedDecodeAccount>(m, t, at, 0);
}

/// An account update with another write version spliced in is the same update, with its places
/// moved.
#[verifier::rlimit(100)]
#[verifier::spinoff_prover]
pub proof fn lemma_splice_fields(
    f: spec_fn(nat) -> nat,
    m: AccountModel,
    s: Seq<u8>,
    at: nat,
    v: u64,
)
    requires
        fields::fields::<UpdateOneofLimitedDecodeAccount>(m, s, at, 0) is Ok,
        places_below(m, at),
        ({
            let mf = fields::fields::<UpdateOneofLimitedDecodeAccount>(m, s, at, 0)->Ok_0.0;
            &&& m.account != mf.account
            &&& at < mf.account < version_place(mf)
            &&& moves(f, s, at, mf.account - at, version_place(mf) - at, v)
        }),
        s.len() + 10 <= u64::MAX,
    ensures
        ({
            let mf = fields::fields::<UpdateOneofLimitedDecodeAccount>(m, s, at, 0)->Ok_0.0;
            let t = splice(s, mf.account - at, version_place(mf) - at, v);
            &&& splice_points(s, mf.account - at, version_place(mf) - at)
            &&& fields::fields::<UpdateOneofLimitedDecodeAccount>(m, t, at, 0) == Ok::<
                (AccountModel, nat),
                error::Failure,
            >((relocation::relocate_account(f, mf), t.len()))
        }),
    decreases s.len(),
{
    let mf = fields::fields::<UpdateOneofLimitedDecodeAccount>(m, s, at, 0)->Ok_0.0;
    let a = mf.account - at;
    let w = version_place(mf) - at;
    lemma_splice_points(m, s, at);
    lemma_update_first(m, s, at);
    let (tag, wire_type, n) = wire::key(s)->Some_0;
    let value = s.skip(n as int);
    let (m1, j) = UpdateOneofLimitedDecodeAccount::step(m, tag, wire_type, value, at + n)->Ok_0;
    let rest = s.skip((n + j) as int);
    if mf.account > at + n + j {
        lemma_moves_rest(f, s, at, n + j, a, w, v);
        lemma_splice_fields(f, m1, rest, at + n + j, v);
        lemma_splice_before(m, s, at, a, w, v);
    } else {
        lemma_splice_here(f, m, s, at, v, mf, m1, j);
    }
}

/// The field of the account itself, once another write version is spliced in.
#[verifier::rlimit(100)]
#[verifier::spinoff_prover]
proof fn lemma_splice_at(
    f: spec_fn(nat) -> nat,
    m: AccountModel,
    s: Seq<u8>,
    at: nat,
    v: u64,
    m1: AccountModel,
    j: nat,
)
    requires
        places_below(m, at),
        wire::key(s) is Some,
        wire::key(s)->Some_0.0 == 1,
        ({
            let (tag, wire_type, n) = wire::key(s)->Some_0;
            let w = version_place(m1) - at;
            &&& n <= s.len()
            &&& wire_type == WireType::LengthDelimited
            &&& UpdateOneofLimitedDecodeAccount::step(
                m,
                tag,
                wire_type,
                s.skip(n as int),
                at + n,
            ) == Ok::<(AccountModel, nat), error::Failure>((m1, j))
            &&& m1.account == at + n < version_place(m1)
            &&& splice_points(s, n as int, w)
            &&& moves(f, s, at, n as int, w, v)
        }),
        s.len() + 10 <= u64::MAX,
    ensures
        ({
            let (tag, wire_type, n) = wire::key(s)->Some_0;
            let w = version_place(m1) - at;
            let len1 = spliced_len(s, n as int, w, v) as nat;
            let j1 = wire::varint_bytes(len1).len() + len1;
            let t = splice(s, n as int, w, v);
            &&& UpdateOneofLimitedDecodeAccount::step(
                m,
                tag,
                wire_type,
                t.skip(n as int),
                at + n,
            ) == Ok::<(AccountModel, nat), error::Failure>(
                (relocation::relocate_account(f, m1), j1),
            )
            &&& t.skip(n as int).skip(j1 as int) == s.skip((n + j) as int)
            &&& w + wire::varint(s.skip(w))->Some_0.1 <= n + j
            &&& j1 == j + splice_shift_before(s, n as int, w, v) + splice_shift_after(s, w, v)
            &&& t.len() == n + j1 + s.skip((n + j) as int).len()
        }),
{
    let (tag, wire_type, n) = wire::key(s)->Some_0;
    let value = s.skip(n as int);
    let w = version_place(m1) - at;
    let p = (at + n) as nat;
    let ma = AccountModel { account: p, ..m };
    let (len, n0) = wire::varint(value)->Some_0;
    lemma_nested_inner(ma, value, p);
    lemma_splice_account(s, n as int, w, v);
    let inner = value.skip(n0 as int).take(len as int);
    assert(value.skip(n0 as int) =~= s.skip((n + n0) as int));
    let rest = s.skip((n + n0 + len) as int);
    let iw = w - n - n0;
    let inner1 = splice_inner(inner, iw, v);
    let lb = wire::varint_bytes(inner1.len());
    let to = p + lb.len();
    lemma_info_places(ma, inner, (p + n0) as nat, 0);
    reveal(moves);
    lemma_splice_inner(f, ma, inner, (p + n0) as nat, to, v);
    assert(relocation::relocate_account(f, ma) == ma);
    lemma_nested_outer(ma, inner1, rest, p);
    let t = splice(s, n as int, w, v);
    assert(t.skip(n as int) == lb + (inner1 + rest));
    assert((lb + (inner1 + rest)).skip((lb.len() + inner1.len()) as int) =~= rest);
}

/// Whether the places of `m` lie apart from the run of `size` bytes at `p`.
pub open spec fn apart(m: AccountModel, p: nat, size: nat) -> bool {
    &&& m.data.end <= p || p + size <= m.data.start
    &&& m.txn_signature matches Some(x) ==> x + 64 <= p || p + size <= x
}

/// The data and the signature lie apart from the write version.
proof fn lemma_info_apart(m: AccountModel, s: Seq<u8>, at: nat)
    requires
        fields::fields::<AccountInfoFields>(m, s, at, 0) is Ok,
        places_below(m, at),
        version_place(fields::fields::<AccountInfoFields>(m, s, at, 0)->Ok_0.0) > at,
    ensures
        ({
            let mf = fields::fields::<AccountInfoFields>(m, s, at, 0)->Ok_0.0;
            apart(
                mf,
                version_place(mf),
                wire::varint(s.skip(version_place(mf) - at))->Some_0.1,
            )
        }),
    decreases s.len(),
{
    let mf = fields::fields::<AccountInfoFields>(m, s, at, 0)->Ok_0.0;
    let w = version_place(mf) - at;
    fields::lemma_fields_first::<AccountInfoFields>(m, s, at, 0);
    fields::lemma_fields_cons::<AccountInfoFields>(m, s, at, 0);
    let (tag, wire_type, n) = wire::key(s)->Some_0;
    let value = s.skip(n as int);
    lemma_info_step_write_version(m, tag, wire_type, value, at + n);
    let (m1, j) = AccountInfoFields::step(m, tag, wire_type, value, at + n)->Ok_0;
    let rest = s.skip((n + j) as int);
    lemma_info_places(m1, rest, at + n + j, 0);
    lemma_info_data(m1, rest, at + n + j, 0);
    if version_place(mf) > at + n + j {
        lemma_info_apart(m1, rest, at + n + j);
        assert(rest.skip(w - n - j) =~= s.skip(w));
    }
}

/// The data and the signature lie apart from the length prefix of the account and from its write
/// version.
#[verifier::rlimit(100)]
#[verifier::spinoff_prover]
pub proof fn lemma_update_apart(m: AccountModel, s: Seq<u8>, at: nat)
    requires
        fields::fields::<UpdateOneofLimitedDecodeAccount>(m, s, at, 0) is Ok,
        places_below(m, at),
        ({
            let mf = fields::fields::<UpdateOneofLimitedDecodeAccount>(m, s, at, 0)->Ok_0.0;
            &&& m.account != mf.account
            &&& at < mf.account < version_place(mf)
        }),
    ensures
        ({
            let mf = fields::fields::<UpdateOneofLimitedDecodeAccount>(m, s, at, 0)->Ok_0.0;
            let a = mf.account - at;
            let w = version_place(mf) - at;
            &&& apart(mf, mf.account, wire::varint(s.skip(a))->Some_0.1)
            &&& apart(mf, version_place(mf), wire::varint(s.skip(w))->Some_0.1)
        }),
    decreases s.len(),
{
    let mf = fields::fields::<UpdateOneofLimitedDecodeAccount>(m, s, at, 0)->Ok_0.0;
    let a = mf.account - at;
    let w = version_place(mf) - at;
    lemma_splice_points(m, s, at);
    lemma_update_first(m, s, at);
    let (tag, wire_type, n) = wire::key(s)->Some_0;
    let value = s.skip(n as int);
    let (m1, j) = UpdateOneofLimitedDecodeAccount::step(m, tag, wire_type, value, at + n)->Ok_0;
    let rest = s.skip((n + j) as int);
    if mf.account > at + n + j {
        lemma_update_apart(m1, rest, at + n + j);
        assert(rest.skip(a - n - j) =~= s.skip(a));
        assert(rest.skip(w - n - j) =~= s.skip(w));
    } else {
        let ma = AccountModel { account: mf.account, ..m };
        let (len, n0) = wire::varint(value)->Some_0;
        lemma_nested_inner(ma, value, mf.account);
        let inner = value.skip(n0 as int).take(len as int);
        lemma_info_places(ma, inner, (mf.account + n0) as nat, 0);
        lemma_info_data(ma, inner, (mf.account + n0) as nat, 0);
        lemma_info_apart(ma, inner, (mf.account + n0) as nat);
        assert(value.skip(n0 as int) =~= s.skip((n + n0) as int));
        lemma_splice_account(s, a, w, 0);
    }
}

/// A field that is taken in has the length that it would be skipped with.
proof fn lemma_step_len(m: AccountModel, tag: u32, wire_type: WireType, rest: Seq<u8>, at: nat)
    ensures
        UpdateOneofLimitedDecodeAccount::step(m, tag, wire_type, rest, at) matches Ok((_, k))
            ==> decode::skipped(wire_type, tag, rest) == Ok::<nat, error::Failure>(k),
{
    if tag == 1 && UpdateOneofLimitedDecodeAccount::step(m, tag, wire_type, rest, at) is Ok {
        lemma_nested_inner(AccountModel { account: at, ..m }, rest, at);
    }
}

/// What is left of the update, its first field left out.
proof fn lemma_fields_with(m: AccountModel, s: Seq<u8>, at: nat)
    requires
        s.len() > 0,
        fields::fields::<UpdateOneofLimitedDecodeAccount>(m, s, at, 0) is Ok,
    ensures
        wire::key(s) is Some,
        ({
            let (tag, wire_type, n) = wire::key(s)->Some_0;
            let step = UpdateOneofLimitedDecodeAccount::step(
                m,
                tag,
                wire_type,
                s.skip(n as int),
                at + n,
            );
            let (m1, k) = step->Ok_0;
            &&& step is Ok
            &&& 1 <= n
            &&& n + k <= s.len()
            &&& decode::fields_among(s, 1, 1) == (if tag == 1 {
                1nat
            } else {
                0
            }) + decode::fields_among(s.skip((n + k) as int), 1, 1)
            &&& fields::fields::<UpdateOneofLimitedDecodeAccount>(
                m1,
                s.skip((n + k) as int),
                at + n + k,
                0,
            ) is Ok
            &&& fields::fields::<UpdateOneofLimitedDecodeAccount>(m, s, at, 0)->Ok_0.0
                == fields::fields::<UpdateOneofLimitedDecodeAccount>(
                m1,
                s.skip((n + k) as int),
                at + n + k,
                0,
            )->Ok_0.0
        }),
{
    fields::lemma_fields_first::<UpdateOneofLimitedDecodeAccount>(m, s, at, 0);
    fields::lemma_fields_cons::<UpdateOneofLimitedDecodeAccount>(m, s, at, 0);
    let (tag, wire_type, n) = wire::key(s)->Some_0;
    lemma_step_len(m, tag, wire_type, s.skip(n as int), at + n);
}

/// Whether `m` has the same account as `m0`, at the same places.
spec fn same_places(m0: AccountModel, m: AccountModel) -> bool {
    &&& m.account == m0.account
    &&& m.data == m0.data
    &&& m.txn_signature == m0.txn_signature
    &&& m.write_version == m0.write_version
}

/// Fields that are no account leave the account as it is.
proof fn lemma_no_account(m: AccountModel, s: Seq<u8>, at: nat)
    requires
        fields::fields::<UpdateOneofLimitedDecodeAccount>(m, s, at, 0) is Ok,
        decode::fields_among(s, 1, 1) == 0,
    ensures
        same_places(m, fields::fields::<UpdateOneofLimitedDecodeAccount>(m, s, at, 0)->Ok_0.0),
    decreases s.len(),
{
    if s.len() > 0 {
        lemma_fields_with(m, s, at);
        let (tag, wire_type, n) = wire::key(s)->Some_0;
        let (m1, k) = UpdateOneofLimitedDecodeAccount::step(
            m,
            tag,
            wire_type,
            s.skip(n as int),
            at + n,
        )->Ok_0;
        lemma_no_account(m1, s.skip((n + k) as int), at + n + k);
    }
}

/// Whether what `m` has the places of lies in the account.
pub open spec fn in_account(m: AccountModel) -> bool {
    &&& m.data.start < m.data.end ==> m.account < m.data.start
    &&& m.txn_signature matches Some(x) ==> m.account < x
    &&& m.write_version matches Some(w) ==> m.account < w
}

/// What an update with a single account has the places of lies in the account.
pub proof fn lemma_one_account(m: AccountModel, s: Seq<u8>, at: nat)
    requires
        fields::fields::<UpdateOneofLimitedDecodeAccount>(m, s, at, 0) is Ok,
        m.data == (Span { start: 0, end: 0 }),
        m.txn_signature is None,
        m.write_version is None,
        decode::fields_among(s, 1, 1) <= 1,
    ensures
        in_account(fields::fields::<UpdateOneofLimitedDecodeAccount>(m, s, at, 0)->Ok_0.0),
    decreases s.len(),
{
    if s.len() > 0 {
        lemma_fields_with(m, s, at);
        let (tag, wire_type, n) = wire::key(s)->Some_0;
        let value = s.skip(n as int);
        let (m1, k) = UpdateOneofLimitedDecodeAccount::step(m, tag, wire_type, value, at + n)->Ok_0;
        let rest = s.skip((n + k) as int);
        if tag == 1 {
            let p = (at + n) as nat;
            let ma = AccountModel { account: p, ..m };
            lemma_nested_inner(ma, value, p);
            let (len, n0) = wire::varint(value)->Some_0;
            let inner = value.skip(n0 as int).take(len as int);
            lemma_info_data(ma, inner, (p + n0) as nat, 0);
            lemma_info_places(ma, inner, (p + n0) as nat, 0);
            lemma_no_account(m1, rest, at + n + k);
        } else {
            lemma_one_account(m1, rest, at + n + k);
        }
    }
}

/// A second splice leaves no trace of the first.
pub proof fn lemma_splice_twice(s: Seq<u8>, a: int, w: int, v1: u64, v2: u64)
    requires
        splice_points(s, a, w),
        s.len() + 10 <= u64::MAX,
    ensures
        ({
            let t = splice(s, a, w, v1);
            let d = splice_shift_before(s, a, w, v1);
            let w1 = w + d;
            &&& splice(t, a, w1, v2) == splice(s, a, w, v2)
            &&& splice_shift_before(t, a, w1, v2) + d == splice_shift_before(s, a, w, v2)
            &&& splice_shift_after(t, w1, v2) + splice_shift_after(s, w, v1) == splice_shift_after(
                s,
                w,
                v2,
            )
            &&& t.len() <= s.len() + 20
        }),
{
    let (len, n0) = wire::varint(s.skip(a))->Some_0;
    let size = wire::varint(s.skip(w))->Some_0.1;
    wire::lemma_varint_bounds(s.skip(w));
    wire::lemma_varint_bounds(s.skip(a));
    wire::lemma_varint_len(v1);
    lemma_splice_account(s, a, w, v1);
    let len1 = spliced_len(s, a, w, v1);
    let lb = wire::varint_bytes(len1 as nat);
    let vb = wire::varint_bytes(v1 as nat);
    let mid = s.subrange(a + n0, w);
    let rest = s.skip(w + size);
    let t = splice(s, a, w, v1);
    let w1 = w + splice_shift_before(s, a, w, v1);
    assert(t.skip(a) =~= lb + (mid + vb + rest));
    assert(t.skip(w1) =~= vb + rest);
    wire::lemma_varint_len(len1 as u64);
    wire::lemma_varint_round_trip(len1 as u64, mid + vb + rest);
    wire::lemma_varint_round_trip(v1, rest);
    assert(spliced_len(t, a, w1, v2) == spliced_len(s, a, w, v2));
    assert(t.take(a) =~= s.take(a));
    assert(t.subrange(a + lb.len(), w1) =~= mid);
    assert(t.skip((w1 + vb.len()) as int) =~= rest);
}

} // verus!
