//! What was encoded is read back.
use vstd::prelude::*;

use crate::account;
use crate::account::{AccountContent, MessageAccountView};
use crate::codec;
use crate::codec::{Timestamp, TimestampFields};
use crate::decode;
use crate::decode::{
    AccountInfoFields, AccountModel, LimitedDecode, Span, SubscribeUpdateLimitedDecode, UpdateModel,
    UpdateOneofLimitedDecodeAccount, UpdateOneofLimitedDecodeSlot, UpdateOneofLimitedDecodeTransaction,
    UpdateOneofLimitedDecodeTransactionInfo,
};
use crate::encode;
use crate::error::Failure;
use crate::fields;
use crate::fields::FieldStep;
use crate::geyser::{AccountInfoView, AccountView};
use crate::message;
use crate::message::{
    MessageBlockMetaView, MessageBlockView, MessageEntryView, MessageSlotView, MessageTransactionView,
    MessageView, ParseFailure,
};
use crate::parser;
use crate::places;
use crate::protobuf;
use crate::richat;
use crate::richat::{FieldsModel, RichatFields, RichatModel};
use crate::update;
use crate::wire;
use crate::wire::WireType;
use crate::write_version;

verus! {

// ---------------------------------------------------------------------------------------------
// Runs of fields
// ---------------------------------------------------------------------------------------------

/// Whether the fields of `s`, which lies `at` bytes into the buffer, turn `m` into `m1`, whatever
/// follows them.
pub open spec fn leads<S: FieldStep>(m: S::M, at: nat, s: Seq<u8>, m1: S::M) -> bool {
    forall|t: Seq<u8>, limit: nat|
        limit <= t.len() ==> #[trigger] fields::fields::<S>(m, s + t, at, limit) == fields::after(
            fields::fields::<S>(m1, t, at + s.len(), limit),
            s.len(),
        )
}

/// No field changes nothing.
pub proof fn lemma_leads_nowhere<S: FieldStep>(m: S::M, at: nat)
    ensures
        leads::<S>(m, at, Seq::empty(), m),
{
    assert forall|t: Seq<u8>, limit: nat| limit <= t.len() implies #[trigger] fields::fields::<S>(
        m,
        Seq::<u8>::empty() + t,
        at,
        limit,
    ) == fields::after(fields::fields::<S>(m, t, at + 0, limit), 0) by {
        assert(Seq::<u8>::empty() + t =~= t);
    }
}

/// Fields that follow fields.
pub proof fn lemma_leads_on<S: FieldStep>(
    m: S::M,
    at: nat,
    a: Seq<u8>,
    m1: S::M,
    b: Seq<u8>,
    m2: S::M,
)
    requires
        leads::<S>(m, at, a, m1),
        leads::<S>(m1, at + a.len(), b, m2),
    ensures
        leads::<S>(m, at, a + b, m2),
{
    assert forall|t: Seq<u8>, limit: nat| limit <= t.len() implies #[trigger] fields::fields::<S>(
        m,
        (a + b) + t,
        at,
        limit,
    ) == fields::after(
        fields::fields::<S>(m2, t, at + (a + b).len(), limit),
        (a + b).len(),
    ) by {
        assert((a + b) + t =~= a + (b + t));
        assert(fields::fields::<S>(m, a + (b + t), at, limit) == fields::after(
            fields::fields::<S>(m1, b + t, at + a.len(), limit),
            a.len(),
        ));
        assert(fields::fields::<S>(m1, b + t, at + a.len(), limit) == fields::after(
            fields::fields::<S>(m2, t, at + a.len() + b.len(), limit),
            b.len(),
        ));
    }
}

/// One field, whose value `v` turns `m` into `m1`.
pub proof fn lemma_leads_field<S: FieldStep>(
    m: S::M,
    at: nat,
    tag: u32,
    wire_type: WireType,
    v: Seq<u8>,
    m1: S::M,
)
    requires
        1 <= tag <= wire::MAX_TAG,
        forall|t: Seq<u8>|
            #[trigger] S::step(
                m,
                tag,
                wire_type,
                v + t,
                at + wire::key_bytes(tag, wire_type).len(),
            ) == Ok::<(S::M, nat), Failure>((m1, v.len())),
    ensures
        leads::<S>(m, at, wire::key_bytes(tag, wire_type) + v, m1),
{
    let k = wire::key_bytes(tag, wire_type);
    let s = k + v;
    assert forall|t: Seq<u8>, limit: nat| limit <= t.len() implies #[trigger] fields::fields::<S>(
        m,
        s + t,
        at,
        limit,
    ) == fields::after(fields::fields::<S>(m1, t, at + s.len(), limit), s.len()) by {
        wire::lemma_key_round_trip(tag, wire_type, v + t);
        assert(s + t =~= k + (v + t));
        assert((s + t).skip(k.len() as int) =~= v + t);
        assert((s + t).skip((k.len() + v.len()) as int) =~= t);
        fields::lemma_fields_cons::<S>(m, s + t, at, limit);
    }
}

/// A run of fields that is all there is.
pub proof fn lemma_leads_all<S: FieldStep>(m: S::M, s: Seq<u8>, m1: S::M)
    requires
        leads::<S>(m, 0, s, m1),
    ensures
        fields::all_fields::<S>(m, s) == Ok::<S::M, Failure>(m1),
{
    let t = Seq::<u8>::empty();
    assert(s + t =~= s);
    assert(fields::fields::<S>(m, s + t, 0, 0) == fields::after(
        fields::fields::<S>(m1, t, 0 + s.len(), 0),
        s.len(),
    ));
}

/// A length prefix and what it counts.
pub proof fn lemma_delimited(p: Seq<u8>, t: Seq<u8>, at: nat)
    requires
        p.len() <= u64::MAX,
    ensures
        wire::varint(wire::delimited(p) + t) == Some(
            (p.len() as u64, wire::varint_bytes(p.len()).len()),
        ),
        decode::delimited_at(wire::delimited(p) + t, at) == Ok::<
            (Span, nat),
            crate::error::DecodeErrorKind,
        >(
            (
                Span {
                    start: at + wire::varint_bytes(p.len()).len(),
                    end: at + wire::delimited(p).len(),
                },
                wire::delimited(p).len(),
            ),
        ),
        (wire::delimited(p) + t).subrange(
            wire::varint_bytes(p.len()).len() as int,
            wire::delimited(p).len() as int,
        ) == p,
        (wire::delimited(p) + t).skip(wire::varint_bytes(p.len()).len() as int) == p + t,
{
    wire::lemma_varint_round_trip(p.len() as u64, p + t);
    let n = wire::varint_bytes(p.len());
    assert(wire::delimited(p) + t =~= n + (p + t));
    assert((wire::delimited(p) + t).subrange(n.len() as int, (n.len() + p.len()) as int) =~= p);
    assert((wire::delimited(p) + t).skip(n.len() as int) =~= p + t);
}

// ---------------------------------------------------------------------------------------------
// Envelopes
// ---------------------------------------------------------------------------------------------

/// The bits of a number survive its sign.
proof fn lemma_signs(x: i64, y: i32)
    ensures
        (x as u64) as i64 == x,
        (y as u64) as i32 == y,
        (x as u64) == 0 <==> x == 0,
        (y as u64) == 0 <==> y == 0,
{
    assert((x as u64) as i64 == x) by (bit_vector);
    assert((y as u64) as i32 == y) by (bit_vector);
    assert((x as u64) == 0 <==> x == 0) by (bit_vector);
    assert((y as u64) == 0 <==> y == 0) by (bit_vector);
}

/// An encoded timestamp is read back.
pub proof fn lemma_timestamp(ts: Timestamp, t: Seq<u8>)
    ensures
        codec::timestamp(
            codec::timestamp_zero(),
            wire::delimited(codec::timestamp_bytes(ts)) + t,
        ) == Some((ts, wire::delimited(codec::timestamp_bytes(ts)).len())),
        codec::timestamp_bytes(ts).len() <= 40,
{
    let zero = codec::timestamp_zero();
    let mid = Timestamp { seconds: ts.seconds, nanos: 0 };
    let a = wire::varint_field_opt(1, ts.seconds as u64);
    let b = wire::varint_field_opt(2, ts.nanos as u64);
    let p = codec::timestamp_bytes(ts);
    let n = wire::varint_bytes(p.len()).len();
    lemma_signs(ts.seconds, ts.nanos);
    wire::lemma_varint_len(ts.seconds as u64);
    wire::lemma_varint_len(ts.nanos as u64);
    wire::lemma_key_round_trip(1, WireType::Varint, t);
    wire::lemma_key_round_trip(2, WireType::Varint, t);
    if ts.seconds == 0 {
        lemma_leads_nowhere::<TimestampFields>(zero, n);
    } else {
        let v = wire::varint_bytes((ts.seconds as u64) as nat);
        assert forall|t: Seq<u8>|
            #[trigger] TimestampFields::step(
                zero,
                1,
                WireType::Varint,
                v + t,
                n + wire::key_bytes(1, WireType::Varint).len(),
            ) == Ok::<(Timestamp, nat), Failure>((mid, v.len())) by {
            wire::lemma_varint_round_trip(ts.seconds as u64, t);
        }
        lemma_leads_field::<TimestampFields>(zero, n, 1, WireType::Varint, v, mid);
    }
    if ts.nanos == 0 {
        lemma_leads_nowhere::<TimestampFields>(mid, n + a.len());
    } else {
        let v = wire::varint_bytes((ts.nanos as u64) as nat);
        assert forall|t: Seq<u8>|
            #[trigger] TimestampFields::step(
                mid,
                2,
                WireType::Varint,
                v + t,
                n + a.len() + wire::key_bytes(2, WireType::Varint).len(),
            ) == Ok::<(Timestamp, nat), Failure>((ts, v.len())) by {
            wire::lemma_varint_round_trip(ts.nanos as u64, t);
        }
        lemma_leads_field::<TimestampFields>(mid, n + a.len(), 2, WireType::Varint, v, ts);
    }
    lemma_leads_on::<TimestampFields>(zero, n, a, mid, b, ts);
    lemma_delimited(p, t, 0);
    assert(fields::fields::<TimestampFields>(zero, p + t, n, t.len()) == fields::after(
        fields::fields::<TimestampFields>(ts, t, n + p.len(), t.len()),
        p.len(),
    ));
}

/// The names of filters are not looked at.
proof fn lemma_leads_filters(m: UpdateModel, at: nat, names: Seq<Seq<u8>>)
    requires
        encode::repeated_field(1, names).len() <= u64::MAX,
    ensures
        leads::<SubscribeUpdateLimitedDecode>(m, at, encode::repeated_field(1, names), m),
    decreases names.len(),
{
    if names.len() == 0 {
        lemma_leads_nowhere::<SubscribeUpdateLimitedDecode>(m, at);
    } else {
        let before = encode::repeated_field(1, names.drop_last());
        let name = names.last();
        lemma_leads_filters(m, at, names.drop_last());
        let v = wire::delimited(name);
        assert forall|t: Seq<u8>|
            #[trigger] SubscribeUpdateLimitedDecode::step(
                m,
                1,
                WireType::LengthDelimited,
                v + t,
                at + before.len() + wire::key_bytes(1, WireType::LengthDelimited).len(),
            ) == Ok::<(UpdateModel, nat), Failure>((m, v.len())) by {
            lemma_delimited(
                name,
                t,
                at + before.len() + wire::key_bytes(1, WireType::LengthDelimited).len(),
            );
        }
        lemma_leads_field::<SubscribeUpdateLimitedDecode>(
            m,
            at + before.len(),
            1,
            WireType::LengthDelimited,
            v,
            m,
        );
        lemma_leads_on::<SubscribeUpdateLimitedDecode>(
            m,
            at,
            before,
            m,
            wire::bytes_field(1, name),
            m,
        );
    }
}

/// Where the payload lies in an envelope.
pub open spec fn payload_place(filters: Seq<Seq<char>>, tag: u32, payload: Seq<u8>) -> Span {
    let start = encode::repeated_field(1, encode::utf8_each(filters)).len() + wire::key_bytes(
        tag,
        WireType::LengthDelimited,
    ).len() + wire::varint_bytes(payload.len()).len();
    Span { start, end: start + payload.len() }
}

/// What was put into an envelope is taken out of it again: the time, the tag of the update, and the
/// place of its bytes.
#[verifier::rlimit(40)]
pub proof fn law_envelope(filters: Seq<Seq<char>>, tag: u32, payload: Seq<u8>, created_at: Timestamp)
    requires
        decode::is_update_tag(tag),
        encode::envelope_bytes(filters, tag, payload, created_at).len() <= u64::MAX,
    ensures
        ({
            let data = encode::envelope_bytes(filters, tag, payload, created_at);
            let sp = payload_place(filters, tag, payload);
            &&& message::limited_envelope(data) == Ok::<
                (Timestamp, u32, Span),
                message::ParseFailure,
            >((created_at, tag, sp))
            &&& sp.end <= data.len()
            &&& account::bytes_at(data, sp) == payload
        }),
{
    let m0 = SubscribeUpdateLimitedDecode::empty();
    let sp = payload_place(filters, tag, payload);
    let m1 = UpdateModel { update: Some((tag, sp)), ..m0 };
    let m2 = UpdateModel { created_at: Some(created_at), ..m1 };
    let a = encode::repeated_field(1, encode::utf8_each(filters));
    let b = wire::bytes_field(tag, payload);
    let c = wire::bytes_field(11, codec::timestamp_bytes(created_at));
    let data = encode::envelope_bytes(filters, tag, payload, created_at);
    let k = wire::key_bytes(tag, WireType::LengthDelimited);
    let n = wire::varint_bytes(payload.len());
    lemma_leads_filters(m0, 0, encode::utf8_each(filters));
    let v = wire::delimited(payload);
    assert forall|t: Seq<u8>|
        #[trigger] SubscribeUpdateLimitedDecode::step(
            m0,
            tag,
            WireType::LengthDelimited,
            v + t,
            a.len() + k.len(),
        ) == Ok::<(UpdateModel, nat), Failure>((m1, v.len())) by {
        lemma_delimited(payload, t, a.len() + k.len());
    }
    lemma_leads_field::<SubscribeUpdateLimitedDecode>(
        m0,
        a.len(),
        tag,
        WireType::LengthDelimited,
        v,
        m1,
    );
    let w = wire::delimited(codec::timestamp_bytes(created_at));
    let at = (a + b).len();
    assert forall|t: Seq<u8>|
        #[trigger] SubscribeUpdateLimitedDecode::step(
            m1,
            11,
            WireType::LengthDelimited,
            w + t,
            at + wire::key_bytes(11, WireType::LengthDelimited).len(),
        ) == Ok::<(UpdateModel, nat), Failure>((m2, w.len())) by {
        lemma_timestamp(created_at, t);
    }
    lemma_leads_field::<SubscribeUpdateLimitedDecode>(
        m1,
        at,
        11,
        WireType::LengthDelimited,
        w,
        m2,
    );
    lemma_leads_on::<SubscribeUpdateLimitedDecode>(m0, 0, a, m0, b, m1);
    lemma_leads_on::<SubscribeUpdateLimitedDecode>(m0, 0, a + b, m1, c, m2);
    lemma_leads_all::<SubscribeUpdateLimitedDecode>(m0, data, m2);
    assert(data =~= (a + k + n) + payload + c);
    assert(account::bytes_at(data, sp) =~= payload);
}

// ---------------------------------------------------------------------------------------------
// Accounts
// ---------------------------------------------------------------------------------------------

/// Whether the keys of the account have 32 bytes.
pub open spec fn keyed(a: AccountInfoView) -> bool {
    &&& a.pubkey.len() == 32
    &&& a.owner.len() == 32
}

/// Whether the limited parser can read the account back: its keys have 32 bytes, and its signature
/// has 64.
pub open spec fn readable(a: AccountInfoView) -> bool {
    &&& keyed(a)
    &&& a.txn_signature matches Some(s) ==> s.len() == 64
}

/// The fields of an account up to its owner.
spec fn upto_owner(a: AccountInfoView) -> Seq<u8> {
    wire::bytes_field_opt(1, a.pubkey) + wire::varint_field_opt(2, a.lamports)
        + wire::bytes_field_opt(3, a.owner)
}

/// The fields of an account up to its rent epoch.
spec fn upto_epoch(a: AccountInfoView) -> Seq<u8> {
    upto_owner(a) + wire::bool_field_opt(4, a.executable) + wire::varint_field_opt(5, a.rent_epoch)
}

/// The fields of an account up to its data.
spec fn upto_data(a: AccountInfoView) -> Seq<u8> {
    upto_epoch(a) + wire::bytes_field_opt(6, a.data)
}

/// The fields of an account up to its write version.
spec fn upto_version(a: AccountInfoView) -> Seq<u8> {
    upto_data(a) + wire::varint_field_opt(7, a.write_version)
}

/// The length of the key of the field.
spec fn key_len(tag: u32, wire_type: WireType) -> nat {
    wire::key_bytes(tag, wire_type).len()
}

/// `m` after the fields of `a` up to its owner.
spec fn owner_model(m: AccountModel, a: AccountInfoView) -> AccountModel {
    AccountModel { pubkey: a.pubkey, lamports: a.lamports, owner: a.owner, ..m }
}

/// `m` after the fields of `a` up to its rent epoch.
spec fn epoch_model(m: AccountModel, a: AccountInfoView) -> AccountModel {
    AccountModel { executable: a.executable, rent_epoch: a.rent_epoch, ..owner_model(m, a) }
}

/// `m` after the fields of `a`, which lie `at` bytes into the buffer, up to its data.
spec fn data_model(m: AccountModel, at: nat, a: AccountInfoView) -> AccountModel {
    let start = at + upto_epoch(a).len() + key_len(6, WireType::LengthDelimited)
        + wire::varint_bytes(a.data.len()).len();
    AccountModel {
        data: if a.data.len() == 0 {
            m.data
        } else {
            Span { start, end: start + a.data.len() }
        },
        ..epoch_model(m, a)
    }
}

/// `m` after the fields of `a`, which lie `at` bytes into the buffer, up to its write version.
spec fn version_model(m: AccountModel, at: nat, a: AccountInfoView) -> AccountModel {
    AccountModel {
        write_version: if a.write_version == 0 {
            m.write_version
        } else {
            Some(at + upto_data(a).len() + key_len(7, WireType::Varint))
        },
        ..data_model(m, at, a)
    }
}

/// `m` after the fields of `a`, which lie `at` bytes into the buffer.
spec fn info_model(m: AccountModel, at: nat, a: AccountInfoView) -> AccountModel {
    AccountModel {
        txn_signature: match a.txn_signature {
            Some(s) => Some(
                at + upto_version(a).len() + key_len(8, WireType::LengthDelimited)
                    + wire::varint_bytes(s.len()).len(),
            ),
            None => m.txn_signature,
        },
        ..version_model(m, at, a)
    }
}

proof fn lemma_leads_owner(m: AccountModel, at: nat, a: AccountInfoView)
    requires
        keyed(a),
        m.lamports == 0,
    ensures
        leads::<AccountInfoFields>(m, at, upto_owner(a), owner_model(m, a)),
{
    let m1 = AccountModel { pubkey: a.pubkey, ..m };
    let m2 = AccountModel { lamports: a.lamports, ..m1 };
    let m3 = owner_model(m, a);
    let f1 = wire::bytes_field_opt(1, a.pubkey);
    let f2 = wire::varint_field_opt(2, a.lamports);
    let f3 = wire::bytes_field_opt(3, a.owner);
    let v = wire::delimited(a.pubkey);
    assert forall|t: Seq<u8>|
        #[trigger] AccountInfoFields::step(
            m,
            1,
            WireType::LengthDelimited,
            v + t,
            at + wire::key_bytes(1, WireType::LengthDelimited).len(),
        ) == Ok::<(AccountModel, nat), Failure>((m1, v.len())) by {
        lemma_delimited(a.pubkey, t, 0);
    }
    lemma_leads_field::<AccountInfoFields>(m, at, 1, WireType::LengthDelimited, v, m1);
    let at2 = at + f1.len();
    if a.lamports == 0 {
        lemma_leads_nowhere::<AccountInfoFields>(m1, at2);
    } else {
        let v = wire::varint_bytes(a.lamports as nat);
        assert forall|t: Seq<u8>|
            #[trigger] AccountInfoFields::step(
                m1,
                2,
                WireType::Varint,
                v + t,
                at2 + wire::key_bytes(2, WireType::Varint).len(),
            ) == Ok::<(AccountModel, nat), Failure>((m2, v.len())) by {
            wire::lemma_varint_round_trip(a.lamports, t);
        }
        lemma_leads_field::<AccountInfoFields>(m1, at2, 2, WireType::Varint, v, m2);
    }
    lemma_leads_on::<AccountInfoFields>(m, at, f1, m1, f2, m2);
    let at3 = at + (f1 + f2).len();
    let v = wire::delimited(a.owner);
    assert forall|t: Seq<u8>|
        #[trigger] AccountInfoFields::step(
            m2,
            3,
            WireType::LengthDelimited,
            v + t,
            at3 + wire::key_bytes(3, WireType::LengthDelimited).len(),
        ) == Ok::<(AccountModel, nat), Failure>((m3, v.len())) by {
        lemma_delimited(a.owner, t, 0);
    }
    lemma_leads_field::<AccountInfoFields>(m2, at3, 3, WireType::LengthDelimited, v, m3);
    lemma_leads_on::<AccountInfoFields>(m, at, f1 + f2, m2, f3, m3);
}

proof fn lemma_leads_epoch(m: AccountModel, at: nat, a: AccountInfoView)
    requires
        keyed(a),
        m.lamports == 0,
        !m.executable,
        m.rent_epoch == 0,
    ensures
        leads::<AccountInfoFields>(m, at, upto_epoch(a), epoch_model(m, a)),
{
    lemma_leads_owner(m, at, a);
    let m3 = owner_model(m, a);
    let m4 = AccountModel { executable: a.executable, ..m3 };
    let m5 = epoch_model(m, a);
    let f4 = wire::bool_field_opt(4, a.executable);
    let f5 = wire::varint_field_opt(5, a.rent_epoch);
    let at4 = at + upto_owner(a).len();
    if !a.executable {
        lemma_leads_nowhere::<AccountInfoFields>(m3, at4);
    } else {
        let v = wire::varint_bytes(1);
        assert forall|t: Seq<u8>|
            #[trigger] AccountInfoFields::step(
                m3,
                4,
                WireType::Varint,
                v + t,
                at4 + wire::key_bytes(4, WireType::Varint).len(),
            ) == Ok::<(AccountModel, nat), Failure>((m4, v.len())) by {
            wire::lemma_varint_round_trip(1, t);
        }
        lemma_leads_field::<AccountInfoFields>(m3, at4, 4, WireType::Varint, v, m4);
    }
    lemma_leads_on::<AccountInfoFields>(m, at, upto_owner(a), m3, f4, m4);
    let at5 = at + (upto_owner(a) + f4).len();
    if a.rent_epoch == 0 {
        lemma_leads_nowhere::<AccountInfoFields>(m4, at5);
    } else {
        let v = wire::varint_bytes(a.rent_epoch as nat);
        assert forall|t: Seq<u8>|
            #[trigger] AccountInfoFields::step(
                m4,
                5,
                WireType::Varint,
                v + t,
                at5 + wire::key_bytes(5, WireType::Varint).len(),
            ) == Ok::<(AccountModel, nat), Failure>((m5, v.len())) by {
            wire::lemma_varint_round_trip(a.rent_epoch, t);
        }
        lemma_leads_field::<AccountInfoFields>(m4, at5, 5, WireType::Varint, v, m5);
    }
    lemma_leads_on::<AccountInfoFields>(m, at, upto_owner(a) + f4, m4, f5, m5);
}

proof fn lemma_leads_version(m: AccountModel, at: nat, a: AccountInfoView)
    requires
        keyed(a),
        a.data.len() <= u64::MAX,
        m.lamports == 0,
        !m.executable,
        m.rent_epoch == 0,
    ensures
        leads::<AccountInfoFields>(m, at, upto_version(a), version_model(m, at, a)),
{
    lemma_leads_epoch(m, at, a);
    let m5 = epoch_model(m, a);
    let m6 = data_model(m, at, a);
    let m7 = version_model(m, at, a);
    let f6 = wire::bytes_field_opt(6, a.data);
    let f7 = wire::varint_field_opt(7, a.write_version);
    let at6 = at + upto_epoch(a).len();
    if a.data.len() == 0 {
        lemma_leads_nowhere::<AccountInfoFields>(m5, at6);
    } else {
        let v = wire::delimited(a.data);
        let k = wire::key_bytes(6, WireType::LengthDelimited).len();
        assert forall|t: Seq<u8>|
            #[trigger] AccountInfoFields::step(m5, 6, WireType::LengthDelimited, v + t, at6 + k)
                == Ok::<(AccountModel, nat), Failure>((m6, v.len())) by {
            lemma_delimited(a.data, t, at6 + k);
        }
        lemma_leads_field::<AccountInfoFields>(m5, at6, 6, WireType::LengthDelimited, v, m6);
    }
    lemma_leads_on::<AccountInfoFields>(m, at, upto_epoch(a), m5, f6, m6);
    let at7 = at + upto_data(a).len();
    if a.write_version == 0 {
        lemma_leads_nowhere::<AccountInfoFields>(m6, at7);
    } else {
        let v = wire::varint_bytes(a.write_version as nat);
        assert forall|t: Seq<u8>|
            #[trigger] AccountInfoFields::step(
                m6,
                7,
                WireType::Varint,
                v + t,
                at7 + wire::key_bytes(7, WireType::Varint).len(),
            ) == Ok::<(AccountModel, nat), Failure>((m7, v.len())) by {
            wire::lemma_varint_round_trip(a.write_version, t);
        }
        lemma_leads_field::<AccountInfoFields>(m6, at7, 7, WireType::Varint, v, m7);
    }
    lemma_leads_on::<AccountInfoFields>(m, at, upto_data(a), m6, f7, m7);
}

/// The fields of an account are read back.
proof fn lemma_leads_info(m: AccountModel, at: nat, a: AccountInfoView)
    requires
        readable(a),
        a.data.len() <= u64::MAX,
        m.lamports == 0,
        !m.executable,
        m.rent_epoch == 0,
    ensures
        leads::<AccountInfoFields>(m, at, encode::account_info_bytes(a), info_model(m, at, a)),
{
    lemma_leads_version(m, at, a);
    let m7 = version_model(m, at, a);
    let m8 = info_model(m, at, a);
    let f8 = encode::optional_field(8, a.txn_signature);
    let at8 = at + upto_version(a).len();
    match a.txn_signature {
        None => {
            lemma_leads_nowhere::<AccountInfoFields>(m7, at8);
        },
        Some(s) => {
            let v = wire::delimited(s);
            let k = wire::key_bytes(8, WireType::LengthDelimited).len();
            assert forall|t: Seq<u8>|
                #[trigger] AccountInfoFields::step(
                    m7,
                    8,
                    WireType::LengthDelimited,
                    v + t,
                    at8 + k,
                ) == Ok::<(AccountModel, nat), Failure>((m8, v.len())) by {
                lemma_delimited(s, t, at8 + k);
            }
            lemma_leads_field::<AccountInfoFields>(m7, at8, 8, WireType::LengthDelimited, v, m8);
        },
    }
    lemma_leads_on::<AccountInfoFields>(m, at, upto_version(a), m7, f8, m8);
    assert(encode::account_info_bytes(a) == upto_version(a) + f8);
}

/// What comes before the fields of the account in an encoded account update.
spec fn before_info(a: AccountInfoView) -> Seq<u8> {
    wire::key_bytes(1, WireType::LengthDelimited) + wire::varint_bytes(
        encode::account_info_bytes(a).len(),
    )
}

/// What follows the fields of the account in an encoded account update.
spec fn after_info(slot: u64, is_startup: bool) -> Seq<u8> {
    wire::varint_field_opt(2, slot) + wire::bool_field_opt(3, is_startup)
}

/// What an encoded account update is decoded to.
spec fn encoded_model(a: AccountInfoView, slot: u64, is_startup: bool) -> AccountModel {
    let m = AccountModel {
        account: key_len(1, WireType::LengthDelimited),
        ..UpdateOneofLimitedDecodeAccount::empty()
    };
    AccountModel { slot, is_startup, ..info_model(m, before_info(a).len(), a) }
}

/// The fields of an account update are read back.
proof fn lemma_leads_account(a: AccountInfoView, slot: u64, is_startup: bool)
    requires
        readable(a),
        encode::account_info_bytes(a).len() <= u64::MAX,
    ensures
        leads::<UpdateOneofLimitedDecodeAccount>(
            UpdateOneofLimitedDecodeAccount::empty(),
            0,
            wire::bytes_field(1, encode::account_info_bytes(a)) + after_info(slot, is_startup),
            encoded_model(a, slot, is_startup),
        ),
{
    let m0 = UpdateOneofLimitedDecodeAccount::empty();
    let info = encode::account_info_bytes(a);
    let k = key_len(1, WireType::LengthDelimited);
    let m1 = AccountModel { account: k, ..m0 };
    let m2 = info_model(m1, before_info(a).len(), a);
    let m3 = AccountModel { slot, ..m2 };
    let m4 = encoded_model(a, slot, is_startup);
    let n = wire::varint_bytes(info.len()).len();
    assert(a.data.len() <= info.len()) by {
        assert(info == upto_version(a) + encode::optional_field(8, a.txn_signature));
        assert(a.data.len() <= wire::bytes_field_opt(6, a.data).len());
    }
    lemma_leads_info(m1, k + n, a);
    let v = wire::delimited(info);
    assert forall|t: Seq<u8>|
        #[trigger] UpdateOneofLimitedDecodeAccount::step(
            m0,
            1,
            WireType::LengthDelimited,
            v + t,
            0 + wire::key_bytes(1, WireType::LengthDelimited).len(),
        ) == Ok::<(AccountModel, nat), Failure>((m2, v.len())) by {
        lemma_delimited(info, t, 0);
        assert(fields::fields::<AccountInfoFields>(m1, info + t, k + n, t.len()) == fields::after(
            fields::fields::<AccountInfoFields>(m2, t, k + n + info.len(), t.len()),
            info.len(),
        ));
    }
    lemma_leads_field::<UpdateOneofLimitedDecodeAccount>(
        m0,
        0,
        1,
        WireType::LengthDelimited,
        v,
        m2,
    );
    let f1 = wire::bytes_field(1, info);
    let f2 = wire::varint_field_opt(2, slot);
    let f3 = wire::bool_field_opt(3, is_startup);
    let at2 = f1.len();
    if slot == 0 {
        lemma_leads_nowhere::<UpdateOneofLimitedDecodeAccount>(m2, at2);
    } else {
        let v = wire::varint_bytes(slot as nat);
        assert forall|t: Seq<u8>|
            #[trigger] UpdateOneofLimitedDecodeAccount::step(
                m2,
                2,
                WireType::Varint,
                v + t,
                at2 + wire::key_bytes(2, WireType::Varint).len(),
            ) == Ok::<(AccountModel, nat), Failure>((m3, v.len())) by {
            wire::lemma_varint_round_trip(slot, t);
        }
        lemma_leads_field::<UpdateOneofLimitedDecodeAccount>(m2, at2, 2, WireType::Varint, v, m3);
    }
    lemma_leads_on::<UpdateOneofLimitedDecodeAccount>(m0, 0, f1, m2, f2, m3);
    let at3 = (f1 + f2).len();
    if !is_startup {
        lemma_leads_nowhere::<UpdateOneofLimitedDecodeAccount>(m3, at3);
    } else {
        let v = wire::varint_bytes(1);
        assert forall|t: Seq<u8>|
            #[trigger] UpdateOneofLimitedDecodeAccount::step(
                m3,
                3,
                WireType::Varint,
                v + t,
                at3 + wire::key_bytes(3, WireType::Varint).len(),
            ) == Ok::<(AccountModel, nat), Failure>((m4, v.len())) by {
            wire::lemma_varint_round_trip(1, t);
        }
        lemma_leads_field::<UpdateOneofLimitedDecodeAccount>(m3, at3, 3, WireType::Varint, v, m4);
    }
    lemma_leads_on::<UpdateOneofLimitedDecodeAccount>(m0, 0, f1 + f2, m3, f3, m4);
    assert((f1 + f2) + f3 =~= f1 + after_info(slot, is_startup));
}

/// An encoded account update, by its parts.
proof fn lemma_account_parts(a: AccountInfoView, slot: u64, is_startup: bool)
    ensures
        ({
            let payload = encode::account_bytes(AccountView { account: Some(a), slot, is_startup });
            let info = encode::account_info_bytes(a);
            &&& payload == wire::bytes_field(1, info) + after_info(slot, is_startup)
            &&& payload == before_info(a) + (info + after_info(slot, is_startup))
        }),
{
    let payload = encode::account_bytes(AccountView { account: Some(a), slot, is_startup });
    let info = encode::account_info_bytes(a);
    assert(payload =~= wire::bytes_field(1, info) + after_info(slot, is_startup));
    assert(payload =~= before_info(a) + (info + after_info(slot, is_startup)));
}

/// The place of the data of an encoded account.
proof fn lemma_data_place(payload: Seq<u8>, before: Seq<u8>, a: AccountInfoView, rest: Seq<u8>)
    requires
        payload == before + (encode::account_info_bytes(a) + rest),
        a.data.len() > 0,
    ensures
        ({
            let start = before.len() + upto_epoch(a).len() + key_len(6, WireType::LengthDelimited)
                + wire::varint_bytes(a.data.len()).len();
            payload.subrange(start as int, (start + a.data.len()) as int) == a.data
        }),
{
    lemma_info_parts(a);
    let e = upto_epoch(a);
    let k = wire::key_bytes(6, WireType::LengthDelimited);
    let n = wire::varint_bytes(a.data.len());
    lemma_run_of(
        payload,
        before,
        e,
        k,
        n,
        a.data,
        wire::varint_field_opt(7, a.write_version) + encode::optional_field(8, a.txn_signature),
        rest,
    );
}

/// The place of the write version of an encoded account.
proof fn lemma_version_place(payload: Seq<u8>, before: Seq<u8>, a: AccountInfoView, rest: Seq<u8>)
    requires
        payload == before + (encode::account_info_bytes(a) + rest),
        a.write_version != 0,
    ensures
        ({
            let start = before.len() + upto_data(a).len() + key_len(7, WireType::Varint);
            &&& start <= payload.len()
            &&& wire::varint(payload.skip(start as int)) is Some
            &&& wire::varint(payload.skip(start as int))->Some_0.0 == a.write_version
        }),
{
    lemma_info_parts(a);
    let e = upto_data(a);
    let k = wire::key_bytes(7, WireType::Varint);
    let v = wire::varint_bytes(a.write_version as nat);
    let f8 = encode::optional_field(8, a.txn_signature);
    assert(wire::varint_field_opt(7, a.write_version) =~= k + (Seq::<u8>::empty() + v));
    lemma_run_of(payload, before, e, k, Seq::empty(), v, f8, rest);
    wire::lemma_varint_round_trip(a.write_version, f8 + rest);
}

/// The place of the signature of an encoded account.
proof fn lemma_signature_place(payload: Seq<u8>, before: Seq<u8>, a: AccountInfoView, rest: Seq<u8>)
    requires
        payload == before + (encode::account_info_bytes(a) + rest),
        a.txn_signature is Some,
    ensures
        ({
            let s = a.txn_signature->Some_0;
            let start = before.len() + upto_version(a).len() + key_len(8, WireType::LengthDelimited)
                + wire::varint_bytes(s.len()).len();
            payload.subrange(start as int, (start + s.len()) as int) == s
        }),
{
    lemma_info_parts(a);
    let s = a.txn_signature->Some_0;
    let e = upto_version(a);
    let k = wire::key_bytes(8, WireType::LengthDelimited);
    let n = wire::varint_bytes(s.len());
    assert(encode::account_info_bytes(a) =~= (e + (k + (n + s))) + Seq::<u8>::empty());
    lemma_run_of(payload, before, e, k, n, s, Seq::empty(), rest);
}

/// An encoded account, by its parts.
proof fn lemma_info_parts(a: AccountInfoView)
    ensures
        encode::account_info_bytes(a) == upto_version(a) + encode::optional_field(
            8,
            a.txn_signature,
        ),
        encode::account_info_bytes(a) == (upto_data(a) + wire::varint_field_opt(
            7,
            a.write_version,
        )) + encode::optional_field(8, a.txn_signature),
        encode::account_info_bytes(a) == (upto_epoch(a) + wire::bytes_field_opt(6, a.data)) + (
        wire::varint_field_opt(7, a.write_version) + encode::optional_field(8, a.txn_signature)),
{
    let e = upto_epoch(a);
    let f6 = wire::bytes_field_opt(6, a.data);
    let f7 = wire::varint_field_opt(7, a.write_version);
    let f8 = encode::optional_field(8, a.txn_signature);
    assert((e + f6 + f7) + f8 =~= (e + f6) + (f7 + f8));
}

/// Where a value lies among what comes before and after it.
proof fn lemma_run_of(
    payload: Seq<u8>,
    before: Seq<u8>,
    e: Seq<u8>,
    k: Seq<u8>,
    n: Seq<u8>,
    d: Seq<u8>,
    f: Seq<u8>,
    rest: Seq<u8>,
)
    requires
        payload == before + (((e + (k + (n + d))) + f) + rest),
    ensures
        ({
            let start = before.len() + e.len() + k.len() + n.len();
            &&& start + d.len() <= payload.len()
            &&& payload.subrange(start as int, (start + d.len()) as int) == d
            &&& payload.skip(start as int) == d + (f + rest)
        }),
{
    let start = before.len() + e.len() + k.len() + n.len();
    assert(payload.subrange(start as int, (start + d.len()) as int) =~= d);
    assert(payload.skip(start as int) =~= d + (f + rest));
}

/// An encoded account update is decoded to the account that was encoded.
pub proof fn law_encoded_account(a: AccountInfoView, slot: u64, is_startup: bool)
    requires
        readable(a),
        encode::account_bytes(AccountView { account: Some(a), slot, is_startup }).len() <= u64::MAX,
    ensures
        ({
            let payload = encode::account_bytes(AccountView { account: Some(a), slot, is_startup });
            &&& account::payload_account(payload) matches Some(m) && {
                &&& account::content(payload, m) == (AccountContent {
                    info: a,
                    slot,
                    is_startup,
                })
                &&& m.write_version is Some <==> a.write_version != 0
                &&& m.write_version matches Some(w) ==> m.account < w
                &&& m.data.start < m.data.end ==> m.account < m.data.start
                &&& m.txn_signature matches Some(x) ==> m.account < x
            }
        }),
{
    let payload = encode::account_bytes(AccountView { account: Some(a), slot, is_startup });
    let m = encoded_model(a, slot, is_startup);
    let before = before_info(a);
    let rest = after_info(slot, is_startup);
    lemma_account_parts(a, slot, is_startup);
    lemma_leads_account(a, slot, is_startup);
    lemma_leads_all::<UpdateOneofLimitedDecodeAccount>(
        UpdateOneofLimitedDecodeAccount::empty(),
        payload,
        m,
    );
    wire::lemma_key_round_trip(1, WireType::LengthDelimited, Seq::empty());
    reveal(account::payload_account);
    if a.write_version != 0 {
        lemma_version_place(payload, before, a, rest);
    }
    if a.data.len() > 0 {
        lemma_data_place(payload, before, a, rest);
    } else {
        assert(account::bytes_at(payload, m.data) =~= a.data);
    }
    if a.txn_signature is Some {
        lemma_signature_place(payload, before, a, rest);
    }
}

/// Fields that are none after fields that are.
pub proof fn lemma_leads_astray<S: FieldStep>(
    m: S::M,
    at: nat,
    s: Seq<u8>,
    m1: S::M,
    tag: u32,
    wire_type: WireType,
    v: Seq<u8>,
    t: Seq<u8>,
    limit: nat,
)
    requires
        leads::<S>(m, at, s, m1),
        1 <= tag <= wire::MAX_TAG,
        limit <= t.len(),
        S::step(
            m1,
            tag,
            wire_type,
            v + t,
            at + s.len() + wire::key_bytes(tag, wire_type).len(),
        ) is Err,
    ensures
        fields::fields::<S>(m, s + ((wire::key_bytes(tag, wire_type) + v) + t), at, limit) is Err,
{
    let k = wire::key_bytes(tag, wire_type);
    let rest = (k + v) + t;
    wire::lemma_key_round_trip(tag, wire_type, v + t);
    assert(rest =~= k + (v + t));
    assert(rest.skip(k.len() as int) =~= v + t);
    assert(fields::fields::<S>(m1, rest, at + s.len(), limit) is Err);
}

/// An account with a signature of another length than 64 is not read.
pub proof fn lemma_bad_signature(a: AccountInfoView, slot: u64, is_startup: bool)
    requires
        keyed(a),
        a.txn_signature matches Some(s) && s.len() != 64,
        encode::account_bytes(AccountView { account: Some(a), slot, is_startup }).len() <= u64::MAX,
    ensures
        account::payload_account(
            encode::account_bytes(AccountView { account: Some(a), slot, is_startup }),
        ) is None,
{
    reveal(account::payload_account);
    let payload = encode::account_bytes(AccountView { account: Some(a), slot, is_startup });
    lemma_account_parts(a, slot, is_startup);
    let m0 = UpdateOneofLimitedDecodeAccount::empty();
    let info = encode::account_info_bytes(a);
    let k = key_len(1, WireType::LengthDelimited);
    let m1 = AccountModel { account: k, ..m0 };
    let n = wire::varint_bytes(info.len()).len();
    let at = k + n;
    let s = a.txn_signature->Some_0;
    let t = after_info(slot, is_startup);
    lemma_info_parts(a);
    assert(a.data.len() <= info.len()) by {
        assert(a.data.len() <= wire::bytes_field_opt(6, a.data).len());
    }
    assert(s.len() <= info.len()) by {
        assert(s.len() <= wire::bytes_field(8, s).len());
    }
    lemma_leads_version(m1, at, a);
    let m7 = version_model(m1, at, a);
    let v = wire::delimited(s);
    let at8 = at + upto_version(a).len() + wire::key_bytes(8, WireType::LengthDelimited).len();
    lemma_delimited(s, t, at8);
    assert(AccountInfoFields::step(m7, 8, WireType::LengthDelimited, v + t, at8) is Err);
    lemma_leads_astray::<AccountInfoFields>(
        m1,
        at,
        upto_version(a),
        m7,
        8,
        WireType::LengthDelimited,
        v,
        t,
        t.len(),
    );
    let f8 = wire::key_bytes(8, WireType::LengthDelimited) + v;
    assert(info + t =~= upto_version(a) + (f8 + t)) by {
        assert(encode::optional_field(8, a.txn_signature) =~= f8);
    }
    lemma_delimited(info, t, k);
    let value = wire::delimited(info) + t;
    assert(value.skip(n as int) =~= info + t);
    assert(UpdateOneofLimitedDecodeAccount::step(m0, 1, WireType::LengthDelimited, value, k) is Err);
    wire::lemma_key_round_trip(1, WireType::LengthDelimited, value);
    let kb = wire::key_bytes(1, WireType::LengthDelimited);
    assert(payload =~= kb + value);
    assert(payload.skip(kb.len() as int) =~= value);
}

// ---------------------------------------------------------------------------------------------
// Messages
// ---------------------------------------------------------------------------------------------

/// Where the write version is, there is a varint.
proof fn lemma_info_version(m: AccountModel, s: Seq<u8>, at: nat, limit: nat)
    ensures
        fields::fields::<AccountInfoFields>(m, s, at, limit) matches Ok((m1, _))
            ==> version_in(m, m1, s, at),
    decreases s.len(),
{
    if s.len() > limit && fields::fields::<AccountInfoFields>(m, s, at, limit) is Ok {
        wire::lemma_key_bounds(s);
        let (tag, wire_type, n) = wire::key(s)->Some_0;
        AccountInfoFields::lemma_step_bounds(m, tag, wire_type, s.skip(n as int), at + n);
        let (m1, k) = AccountInfoFields::step(m, tag, wire_type, s.skip(n as int), at + n)->Ok_0;
        let rest = s.skip((n + k) as int);
        lemma_info_version(m1, rest, at + n + k, limit);
        let m2 = fields::fields::<AccountInfoFields>(m1, rest, at + n + k, limit)->Ok_0.0;
        if m2.write_version != m1.write_version {
            let x = m2.write_version->Some_0 - (at + n + k);
            assert(rest.skip(x) =~= s.skip(n + k + x));
        }
    }
}

/// Whether the write version of `m1` is that of `m`, or lies in `s`, where there is a varint.
spec fn version_in(m: AccountModel, m1: AccountModel, s: Seq<u8>, at: nat) -> bool {
    m1.write_version == m.write_version || (m1.write_version matches Some(w) && {
        &&& at <= w <= at + s.len()
        &&& wire::varint(s.skip(w - at)) is Some
    })
}

/// Where the write version of an account is, there is a varint.
proof fn lemma_account_version(m: AccountModel, value: Seq<u8>, at: nat)
    ensures
        decode::nested::<AccountInfoFields>(
            AccountModel { account: at, ..m },
            value,
            at,
            true,
        ) matches Ok((m1, _)) ==> version_in(m, m1, value, at),
{
    let m0 = AccountModel { account: at, ..m };
    if decode::nested::<AccountInfoFields>(m0, value, at, true) is Ok {
        wire::lemma_varint_bounds(value);
        let (len, p) = wire::varint(value)->Some_0;
        let inner = value.skip(p as int);
        lemma_info_version(m0, inner, at + p, (value.len() - p - len) as nat);
        let m1 = decode::nested::<AccountInfoFields>(m0, value, at, true)->Ok_0.0;
        if m1.write_version != m.write_version {
            let x = m1.write_version->Some_0 - (at + p);
            assert(inner.skip(x) =~= value.skip(p + x));
        }
    }
}

/// Where the write version is, there is a varint.
#[verifier::rlimit(40)]
#[verifier::spinoff_prover]
proof fn lemma_update_version(m: AccountModel, s: Seq<u8>, at: nat, limit: nat)
    ensures
        fields::fields::<UpdateOneofLimitedDecodeAccount>(m, s, at, limit) matches Ok((m1, _))
            ==> version_in(m, m1, s, at),
    decreases s.len(),
{
    if s.len() > limit && fields::fields::<UpdateOneofLimitedDecodeAccount>(
        m,
        s,
        at,
        limit,
    ) is Ok {
        wire::lemma_key_bounds(s);
        let (tag, wire_type, n) = wire::key(s)->Some_0;
        let value = s.skip(n as int);
        UpdateOneofLimitedDecodeAccount::lemma_step_bounds(m, tag, wire_type, value, at + n);
        let (m1, k) = UpdateOneofLimitedDecodeAccount::step(
            m,
            tag,
            wire_type,
            value,
            at + n,
        )->Ok_0;
        if tag == 1 {
            lemma_account_version(m, value, at + n);
            if m1.write_version != m.write_version {
                let x = m1.write_version->Some_0 - (at + n);
                assert(value.skip(x) =~= s.skip(n + x));
            }
        }
        let rest = s.skip((n + k) as int);
        lemma_update_version(m1, rest, at + n + k, limit);
        let m2 = fields::fields::<UpdateOneofLimitedDecodeAccount>(
            m1,
            rest,
            at + n + k,
            limit,
        )->Ok_0.0;
        if m2.write_version != m1.write_version {
            let x = m2.write_version->Some_0 - (at + n + k);
            assert(rest.skip(x) =~= s.skip(n + k + x));
        }
    }
}

/// Where the write version of an account update is, there is a varint.
proof fn lemma_payload_version(payload: Seq<u8>)
    requires
        account::payload_account(payload) is Some,
    ensures
        ({
            let m = account::payload_account(payload)->Some_0;
            m.write_version matches Some(w) ==> w <= payload.len() && wire::varint(
                payload.skip(w as int),
            ) is Some
        }),
{
    reveal(account::payload_account);
    lemma_update_version(UpdateOneofLimitedDecodeAccount::empty(), payload, 0, 0);
}

/// The message that the limited parser makes of an account update says what the update says, its
/// places lie within the buffer, and it is what its bytes decode to.
pub proof fn law_limited_account(data: Seq<u8>, range: Span, created_at: Timestamp)
    requires
        range.start <= range.end <= data.len(),
    ensures
        ({
            let payload = account::bytes_at(data, range);
            match message::limited_account(data, range, created_at) {
                Ok(m) => {
                    &&& account::payload_account(payload) is Some
                    &&& m.decoded()
                    &&& m.in_bounds()
                    &&& m.created_at() == created_at
                    &&& m.content() == account::content(
                        payload,
                        account::payload_account(payload)->Some_0,
                    )
                },
                Err(_) => account::payload_account(payload) is None,
            }
        }),
{
    reveal(account::payload_account);
    let payload = account::bytes_at(data, range);
    if message::limited_account(data, range, created_at) is Ok {
        let pm = account::payload_account(payload)->Some_0;
        let m = message::limited_account(data, range, created_at)->Ok_0;
        account::lemma_payload_places(payload);
        lemma_payload_version(payload);
        if let Some(w) = pm.write_version {
            account::lemma_varint_in_range(data, range, w as int);
        }
        assert(account::bytes_at(data, m->fields.data) =~= account::bytes_at(payload, pm.data));
        if let Some(x) = pm.txn_signature {
            let y: int = x as int + range.start;
            assert(data.subrange(y, y + 64) =~= payload.subrange(x as int, x as int + 64));
        }
    }
}

/// Whether all places of an account message lie within its own range of the buffer.
pub open spec fn within_range(m: MessageAccountView) -> bool {
    match m {
        MessageAccountView::Limited { fields, buffer, range, .. } => {
            &&& range.start <= fields.data.start <= fields.data.end <= range.end <= buffer.len()
            &&& range.start < fields.account < range.end
            &&& fields.write_version matches Some(w) ==> range.start <= w < range.end
            &&& fields.txn_signature matches Some(x) ==> range.start <= x && x + 64 <= range.end
        },
        MessageAccountView::Prost { .. } => true,
    }
}

/// All places of an account message that the limited parser made lie within its own range of the
/// buffer, which is what was parsed.
pub proof fn law_limited_account_places(data: Seq<u8>)
    ensures
        message::limited_message(data) matches Ok(MessageView::Account(m)) ==> {
            &&& m is Limited
            &&& m->Limited_buffer == data
            &&& within_range(m)
        },
{
    if message::limited_message(data) is Ok {
        lemma_envelope_place(data);
        let (created_at, tag, range) = message::limited_envelope(data)->Ok_0;
        if tag == 2 {
            law_limited_account(data, range, created_at);
            account::lemma_payload_places(account::bytes_at(data, range));
            reveal(account::payload_account);
        }
    }
}

/// Whether the account of the message has a write version, and its data and its signature lie in the same
/// account. Where there is no data, the length of the account is written as short as it can be, or is no
/// longer than what comes before the update.
pub open spec fn versioned(m: MessageAccountView) -> bool {
    match m {
        MessageAccountView::Limited { fields, buffer, range, .. } => {
            let payload = account::bytes_at(buffer, range);
            let a = fields.account - range.start;
            &&& fields.write_version is Some
            &&& write_version::in_account(fields)
            &&& fields.data.start < fields.data.end || account::short_prefix(payload, a)
                || wire::varint(payload.skip(a))->Some_0.1 <= range.start + 1
        },
        MessageAccountView::Prost { .. } => true,
    }
}

/// Where an update holds a single account, all that the message has the places of lies in that account.
pub proof fn law_single_account(data: Seq<u8>, m: MessageAccountView)
    requires
        message::limited_message(data) == Ok::<MessageView, ParseFailure>(MessageView::Account(m)),
        decode::fields_among(account::bytes_at(m->Limited_buffer, m->Limited_range), 1, 1) == 1,
    ensures
        m is Limited,
        write_version::in_account(m->fields),
{
    reveal(account::payload_account);
    let (_, _, range) = message::limited_envelope(data)->Ok_0;
    write_version::lemma_one_account(
        UpdateOneofLimitedDecodeAccount::empty(),
        account::bytes_at(data, range),
        0,
    );
}

/// The write version of an account message that the limited parser made can be replaced, and that
/// replaces nothing else.
pub proof fn law_limited_replaceable(data: Seq<u8>, m: MessageAccountView, v: u64)
    requires
        message::limited_message(data) == Ok::<MessageView, ParseFailure>(MessageView::Account(m)),
        versioned(m),
        data.len() + 20 <= usize::MAX,
    ensures
        m.decoded(),
        m.placed(),
        m.replaceable(v),
        account::updated(m, v).content() == (AccountContent {
            info: AccountInfoView { write_version: v, ..m.content().info },
            ..m.content()
        }),
        account::updated(m, v).created_at() == m.created_at(),
{
    lemma_envelope_place(data);
    let (created_at, tag, range) = message::limited_envelope(data)->Ok_0;
    let payload = account::bytes_at(data, range);
    law_limited_account(data, range, created_at);
    account::lemma_payload_places(payload);
    assert(m->fields.data.start == account::payload_account(payload)->Some_0.data.start
        + range.start) by {
        reveal(account::payload_account);
    }
    assert(m.placed()) by {
        reveal(account::payload_account);
    }
    account::lemma_replaceable(m, v);
    account::law_update_write_version(m, v);
}

/// The last of two write versions of an account message that the limited parser made wins, and leaves no
/// trace of the other: encoded for whatever filters, and in all that it says, the message is the one in
/// which only the last one was put.
pub proof fn law_limited_last_write_version(
    data: Seq<u8>,
    m: MessageAccountView,
    v1: u64,
    v2: u64,
    filters: Seq<Seq<char>>,
)
    requires
        message::limited_message(data) == Ok::<MessageView, ParseFailure>(MessageView::Account(m)),
        versioned(m),
        data.len() + 40 <= usize::MAX,
    ensures
        m.replaceable(v1),
        m.replaceable(v2),
        account::updated(m, v1).replaceable(v2),
        ({
            let twice = account::updated(account::updated(m, v1), v2);
            let once = account::updated(m, v2);
            &&& twice.content() == once.content()
            &&& twice.content().info.write_version == v2
            &&& message_bytes(MessageView::Account(twice), filters) == message_bytes(
                MessageView::Account(once),
                filters,
            )
        }),
{
    law_limited_replaceable(data, m, v1);
    law_limited_replaceable(data, m, v2);
    assert(account::as_read(m)) by {
        reveal(account::payload_account);
    }
    account::law_last_write_version(m, v1, v2);
}

/// A parsed message is one whose update lies within its buffer.
proof fn lemma_envelope_place(data: Seq<u8>)
    ensures
        message::limited_envelope(data) matches Ok((_, tag, sp)) ==> 2 <= sp.start && sp.start
            <= sp.end <= data.len() && decode::is_update_tag(tag),
{
    if message::limited_envelope(data) is Ok {
        places::lemma_all_fields_below::<SubscribeUpdateLimitedDecode>(
            SubscribeUpdateLimitedDecode::empty(),
            data,
        );
    }
}

/// An account message that the limited parser made, encoded with all of its data and parsed again,
/// says what it said before. So does one whose write version was replaced since.
pub proof fn law_limited_account_round_trip(m: MessageAccountView, filters: Seq<Seq<char>>)
    requires
        m is Limited,
        m.decoded(),
        encode::envelope_bytes(
            filters,
            2,
            update::account_payload(m, Seq::empty()),
            m.created_at(),
        ).len() <= u64::MAX,
    ensures
        ({
            let data = encode::envelope_bytes(
                filters,
                2,
                update::account_payload(m, Seq::empty()),
                m.created_at(),
            );
            &&& message::limited_message(data) matches Ok(MessageView::Account(m1)) && {
                &&& m1 is Limited
                &&& m1.decoded()
                &&& m1.in_bounds()
                &&& m1.content() == m.content()
                &&& m1.created_at() == m.created_at()
            }
        }),
{
    let payload = update::account_payload(m, Seq::empty());
    let data = encode::envelope_bytes(filters, 2, payload, m.created_at());
    let sp = payload_place(filters, 2, payload);
    law_envelope(filters, 2, payload, m.created_at());
    law_limited_account(data, sp, m.created_at());
    assert(payload == account::bytes_at(m->Limited_buffer, m->Limited_range));
    lemma_payload_version(payload);
    let pm = account::payload_account(payload)->Some_0;
    if let Some(w) = pm.write_version {
        account::lemma_varint_in_range(m->Limited_buffer, m->Limited_range, w as int);
    }
    assert(m.content() == account::content(payload, pm));
}

/// An account message, encoded with the parts of its data that `slices` ask for and parsed by the
/// limited parser, says what it said before, but for the data: of that it holds those parts.
pub proof fn law_sliced_account_round_trip(
    m: MessageAccountView,
    slices: Seq<(nat, nat)>,
    filters: Seq<Seq<char>>,
)
    requires
        m is Prost || slices.len() > 0,
        readable(update::account_info(m)),
        encode::envelope_bytes(
            filters,
            2,
            update::account_payload(m, slices),
            m.created_at(),
        ).len() <= u64::MAX,
    ensures
        ({
            let data = encode::envelope_bytes(
                filters,
                2,
                update::account_payload(m, slices),
                m.created_at(),
            );
            &&& message::limited_message(data) matches Ok(MessageView::Account(m1)) && {
                &&& m1 is Limited
                &&& m1.decoded()
                &&& m1.placed()
                &&& m1.in_bounds()
                &&& m1.content().info == update::sliced_info(m, slices)
                &&& m1.content().slot == m.content().slot
                &&& m1.content().is_startup == m.content().is_startup
                &&& m1.created_at() == m.created_at()
            }
        }),
{
    let payload = update::account_payload(m, slices);
    let data = encode::envelope_bytes(filters, 2, payload, m.created_at());
    let sp = payload_place(filters, 2, payload);
    law_envelope(filters, 2, payload, m.created_at());
    law_limited_account(data, sp, m.created_at());
    law_encoded_account(
        update::sliced_info(m, slices),
        m.content().slot,
        m.content().is_startup,
    );
    account::lemma_payload_places(payload);
    reveal(account::payload_account);
}

/// Whether the places of the message lie within its buffer. The parts of a block were made by one parser.
pub open spec fn within_buffer(m: MessageView) -> bool {
    match m {
        MessageView::Slot(m) => update::slot_encodable(m) && m.in_bounds(),
        MessageView::Account(m) => m.in_bounds() && m.decoded(),
        MessageView::Transaction(m) => m.in_bounds(),
        MessageView::Entry(m) => update::entry_encodable(m),
        MessageView::BlockMeta(m) => update::block_meta_encodable(m),
        MessageView::Block(m) => {
            &&& m.uniform()
            &&& forall|i: int| 0 <= i < m.accounts.len() ==> (#[trigger] m.accounts[i]).in_bounds()
            &&& forall|i: int|
                0 <= i < m.transactions.len() ==> (#[trigger] m.transactions[i]).in_bounds()
            &&& forall|i: int|
                0 <= i < m.entries.len() ==> update::entry_encodable(#[trigger] m.entries[i])
        },
    }
}

/// The places of a message that the limited parser made lie within its buffer: it can be filtered and
/// encoded, but for the status of a transaction without a signature. An account message is what its
/// bytes decode to, so that its write version can be replaced.
pub proof fn law_limited_within_buffer(data: Seq<u8>)
    ensures
        message::limited_message(data) matches Ok(m) ==> within_buffer(m),
{
    if message::limited_message(data) is Ok {
        lemma_envelope_place(data);
        let (created_at, tag, range) = message::limited_envelope(data)->Ok_0;
        if tag == 2 {
            law_limited_account(data, range, created_at);
        } else if tag == 3 {
            places::lemma_all_fields_below::<UpdateOneofLimitedDecodeSlot>(
                UpdateOneofLimitedDecodeSlot::empty(),
                account::bytes_at(data, range),
            );
        } else if tag == 4 {
            lemma_transaction_again(data, range, data, range, created_at);
        }
    }
}

/// A message of any other kind that the limited parser made of `data`, encoded and parsed again, says
/// what it said before.
pub proof fn law_limited_round_trip(data: Seq<u8>, m: MessageView, filters: Seq<Seq<char>>)
    requires
        message::limited_message(data) == Ok::<MessageView, ParseFailure>(m),
        !(m is Account),
        message_bytes(m, filters).len() <= u64::MAX,
    ensures
        message::limited_message(message_bytes(m, filters)) matches Ok(m1) && same_message(m, m1),
{
    lemma_envelope_place(data);
    let (created_at, tag, range) = message::limited_envelope(data)->Ok_0;
    let payload = account::bytes_at(data, range);
    let again = message_bytes(m, filters);
    let sp = payload_place(filters, tag, payload);
    assert(again == encode::envelope_bytes(filters, tag, payload, created_at));
    law_envelope(filters, tag, payload, created_at);
    match m {
        MessageView::Slot(_) => {
            lemma_slot_again(data, range, again, sp, created_at);
        },
        MessageView::Transaction(_) => {
            lemma_transaction_again(data, range, again, sp, created_at);
        },
        _ => {},
    }
}

/// A slot update says the same, wherever its bytes lie.
proof fn lemma_slot_again(
    data: Seq<u8>,
    range: Span,
    again: Seq<u8>,
    sp: Span,
    created_at: Timestamp,
)
    requires
        range.start <= range.end <= data.len(),
        sp.start <= sp.end <= again.len(),
        account::bytes_at(again, sp) == account::bytes_at(data, range),
        message::limited_slot(data, range, created_at) is Ok,
    ensures
        message::limited_slot(again, sp, created_at) matches Ok(m1) && same_slot(
            message::limited_slot(data, range, created_at)->Ok_0,
            m1,
        ),
{
    let payload = account::bytes_at(data, range);
    places::lemma_all_fields_below::<UpdateOneofLimitedDecodeSlot>(
        UpdateOneofLimitedDecodeSlot::empty(),
        payload,
    );
    let m = fields::all_fields::<UpdateOneofLimitedDecodeSlot>(
        UpdateOneofLimitedDecodeSlot::empty(),
        payload,
    )->Ok_0;
    if let Some(x) = m.dead_error {
        assert(account::bytes_at(data, message::span_in(range, x)) =~= account::bytes_at(
            payload,
            x,
        ));
        assert(account::bytes_at(again, message::span_in(sp, x)) =~= account::bytes_at(
            account::bytes_at(again, sp),
            x,
        ));
    }
}

/// The tag, the bytes and the time of an update that is all of the message.
pub open spec fn message_parts(m: MessageView) -> (u32, Seq<u8>, Timestamp) {
    match m {
        MessageView::Slot(m) => (3, update::slot_payload(m), m.created_at()),
        MessageView::Account(m) => (2, update::account_payload(m, Seq::empty()), m.created_at()),
        MessageView::Transaction(m) => (4, update::transaction_payload(m), m.created_at()),
        MessageView::Entry(m) => (8, update::entry_payload(m), m.created_at()),
        MessageView::BlockMeta(m) => (7, update::block_meta_payload(m), m.created_at()),
        MessageView::Block(m) => (
            5,
            update::block_payload(
                m,
                update::below(m.accounts.len()),
                update::below(m.transactions.len()),
                true,
                Seq::empty(),
            ),
            m.created_at.timestamp(),
        ),
    }
}

/// All of the message, encoded for the filters.
pub open spec fn message_bytes(m: MessageView, filters: Seq<Seq<char>>) -> Seq<u8> {
    let (tag, payload, created_at) = message_parts(m);
    encode::envelope_bytes(filters, tag, payload, created_at)
}

/// Whether two slot messages say the same.
pub open spec fn same_slot(a: MessageSlotView, b: MessageSlotView) -> bool {
    &&& a.slot() == b.slot()
    &&& a.parent() == b.parent()
    &&& a.status() == b.status()
    &&& a.dead_error_bytes() == b.dead_error_bytes()
    &&& a.created_at() == b.created_at()
    &&& update::slot_payload(a) == update::slot_payload(b)
}

/// Whether two account messages say the same.
pub open spec fn same_account(a: MessageAccountView, b: MessageAccountView) -> bool {
    &&& a.content() == b.content()
    &&& a.created_at() == b.created_at()
}

/// Whether two transaction messages say the same.
pub open spec fn same_transaction(a: MessageTransactionView, b: MessageTransactionView) -> bool {
    &&& a.signed() == b.signed()
    &&& a.signed() ==> a.signature() == b.signature()
    &&& a.error() == b.error()
    &&& a.account_keys() == b.account_keys()
    &&& a.vote() == b.vote()
    &&& a.index() == b.index()
    &&& a.slot() == b.slot()
    &&& a.created_at() == b.created_at()
    &&& update::transaction_part(a) == update::transaction_part(b)
}

/// Whether two entry messages say the same.
pub open spec fn same_entry(a: MessageEntryView, b: MessageEntryView) -> bool {
    &&& a.slot() == b.slot()
    &&& a.index() == b.index()
    &&& a.executed_transaction_count() == b.executed_transaction_count()
    &&& a.created_at() == b.created_at()
    &&& update::entry_payload(a) == update::entry_payload(b)
}

/// Whether two block metadata messages say the same.
pub open spec fn same_block_meta(a: MessageBlockMetaView, b: MessageBlockMetaView) -> bool {
    &&& a.block_meta() == b.block_meta()
    &&& a.block_height() == b.block_height()
    &&& a.created_at() == b.created_at()
}

/// Whether two block messages say the same.
pub open spec fn same_block(a: MessageBlockView, b: MessageBlockView) -> bool {
    &&& a.accounts.len() == b.accounts.len()
    &&& forall|i: int|
        0 <= i < a.accounts.len() ==> same_account(#[trigger] a.accounts[i], b.accounts[i])
    &&& a.transactions.len() == b.transactions.len()
    &&& forall|i: int|
        0 <= i < a.transactions.len() ==> same_transaction(
            #[trigger] a.transactions[i],
            b.transactions[i],
        )
    &&& a.entries.len() == b.entries.len()
    &&& forall|i: int|
        0 <= i < a.entries.len() ==> same_entry(#[trigger] a.entries[i], b.entries[i])
    &&& same_block_meta(a.block_meta, b.block_meta)
    &&& a.created_at == b.created_at
}

/// Whether two messages say the same, wherever their bytes lie.
pub open spec fn same_message(a: MessageView, b: MessageView) -> bool {
    match (a, b) {
        (MessageView::Slot(a), MessageView::Slot(b)) => same_slot(a, b),
        (MessageView::Account(a), MessageView::Account(b)) => same_account(a, b),
        (MessageView::Transaction(a), MessageView::Transaction(b)) => same_transaction(a, b),
        (MessageView::Entry(a), MessageView::Entry(b)) => same_entry(a, b),
        (MessageView::BlockMeta(a), MessageView::BlockMeta(b)) => same_block_meta(a, b),
        (MessageView::Block(a), MessageView::Block(b)) => same_block(a, b),
        _ => false,
    }
}

/// The transaction message of the same update in another buffer says the same.
proof fn lemma_transaction_again(
    data: Seq<u8>,
    range: Span,
    again: Seq<u8>,
    sp: Span,
    created_at: Timestamp,
)
    requires
        range.start <= range.end <= data.len(),
        sp.start <= sp.end <= again.len(),
        account::bytes_at(data, range) == account::bytes_at(again, sp),
        message::limited_transaction(data, range, created_at) is Ok,
    ensures
        message::limited_transaction(again, sp, created_at) is Ok,
        same_message(
            MessageView::Transaction(message::limited_transaction(data, range, created_at)->Ok_0),
            MessageView::Transaction(message::limited_transaction(again, sp, created_at)->Ok_0),
        ),
        message::limited_transaction(again, sp, created_at)->Ok_0.in_bounds(),
{
    let payload = account::bytes_at(data, range);
    places::lemma_all_fields_below::<UpdateOneofLimitedDecodeTransaction>(
        UpdateOneofLimitedDecodeTransaction::empty(),
        payload,
    );
    let m = fields::all_fields::<UpdateOneofLimitedDecodeTransaction>(
        UpdateOneofLimitedDecodeTransaction::empty(),
        payload,
    )->Ok_0;
    let inner = m.transaction->Some_0;
    let t1 = message::span_in(range, inner);
    let t2 = message::span_in(sp, inner);
    lemma_span_again(data, range, again, sp, inner);
    let tx = account::bytes_at(data, t1);
    places::lemma_all_fields_below::<UpdateOneofLimitedDecodeTransactionInfo>(
        UpdateOneofLimitedDecodeTransactionInfo::empty(),
        tx,
    );
    let info = fields::all_fields::<UpdateOneofLimitedDecodeTransactionInfo>(
        UpdateOneofLimitedDecodeTransactionInfo::empty(),
        tx,
    )->Ok_0;
    if let Some(e) = info.err {
        lemma_span_again(data, t1, again, t2, e);
    }
    if let Some(x) = info.signature {
        lemma_span_again(data, t1, again, t2, Span { start: x, end: x + 64 });
    }
}

/// A run of the same bytes in another buffer holds the same bytes.
proof fn lemma_span_again(data: Seq<u8>, range: Span, again: Seq<u8>, sp: Span, inner: Span)
    requires
        range.start <= range.end <= data.len(),
        sp.start <= sp.end <= again.len(),
        account::bytes_at(data, range) == account::bytes_at(again, sp),
        inner.start <= inner.end <= range.end - range.start,
    ensures
        account::bytes_at(data, message::span_in(range, inner)) == account::bytes_at(
            again,
            message::span_in(sp, inner),
        ),
{
    let payload = account::bytes_at(data, range);
    assert(payload.len() == account::bytes_at(again, sp).len());
    assert(account::bytes_at(data, message::span_in(range, inner)) =~= account::bytes_at(
        payload,
        inner,
    ));
    assert(account::bytes_at(again, message::span_in(sp, inner)) =~= account::bytes_at(
        payload,
        inner,
    ));
}

// ---------------------------------------------------------------------------------------------
// Updates that are none of the stream
// ---------------------------------------------------------------------------------------------

/// What the fields of an envelope with an update that is none of the stream are decoded to.
#[verifier::rlimit(40)]
#[verifier::spinoff_prover]
proof fn lemma_other_envelope(tag: u32, payload: Seq<u8>, created_at: Timestamp)
    requires
        100 <= tag <= 105,
        payload.len() <= u64::MAX,
    ensures
        fields::all_fields::<SubscribeUpdateLimitedDecode>(
            SubscribeUpdateLimitedDecode::empty(),
            encode::other_envelope(tag, payload, created_at),
        ) == Ok::<UpdateModel, Failure>(
            UpdateModel { update: None, created_at: Some(created_at), richat_update: true },
        ),
{
    let m0 = SubscribeUpdateLimitedDecode::empty();
    let m1 = UpdateModel { created_at: Some(created_at), ..m0 };
    let m2 = UpdateModel { richat_update: true, ..m1 };
    let a = wire::bytes_field(11, codec::timestamp_bytes(created_at));
    let b = wire::bytes_field(tag, payload);
    let w = wire::delimited(codec::timestamp_bytes(created_at));
    assert forall|t: Seq<u8>|
        #[trigger] SubscribeUpdateLimitedDecode::step(
            m0,
            11,
            WireType::LengthDelimited,
            w + t,
            0 + wire::key_bytes(11, WireType::LengthDelimited).len(),
        ) == Ok::<(UpdateModel, nat), Failure>((m1, w.len())) by {
        lemma_timestamp(created_at, t);
    }
    lemma_leads_field::<SubscribeUpdateLimitedDecode>(
        m0,
        0,
        11,
        WireType::LengthDelimited,
        w,
        m1,
    );
    let v = wire::delimited(payload);
    assert forall|t: Seq<u8>|
        #[trigger] SubscribeUpdateLimitedDecode::step(
            m1,
            tag,
            WireType::LengthDelimited,
            v + t,
            a.len() + wire::key_bytes(tag, WireType::LengthDelimited).len(),
        ) == Ok::<(UpdateModel, nat), Failure>((m2, v.len())) by {
        lemma_delimited(payload, t, 0);
    }
    lemma_leads_field::<SubscribeUpdateLimitedDecode>(
        m1,
        a.len(),
        tag,
        WireType::LengthDelimited,
        v,
        m2,
    );
    lemma_leads_on::<SubscribeUpdateLimitedDecode>(m0, 0, a, m1, b, m2);
    lemma_leads_all::<SubscribeUpdateLimitedDecode>(m0, a + b, m2);
}

/// The limited parser makes no message of an update that is none of the stream, whatever it holds,
/// and says what it is.
pub proof fn law_other_update_is_no_message(tag: u32, payload: Seq<u8>, created_at: Timestamp)
    requires
        100 <= tag <= 105,
        payload.len() <= u64::MAX,
    ensures
        message::limited_message(encode::other_envelope(tag, payload, created_at)) == Err::<
            MessageView,
            ParseFailure,
        >(ParseFailure::InvalidUpdateMessage("Richat")),
{
    lemma_other_envelope(tag, payload, created_at);
}

/// The fields of an envelope with an update that is none of the stream are read back.
#[verifier::rlimit(40)]
#[verifier::spinoff_prover]
pub proof fn lemma_other_fields(tag: u32, payload: Seq<u8>, created_at: Timestamp)
    requires
        100 <= tag <= 105,
        payload.len() <= u64::MAX,
    ensures
        fields::all_fields::<RichatFields>(
            richat::no_fields(),
            encode::other_envelope(tag, payload, created_at),
        ) == richat::one_part(tag, payload, Some(created_at)),
{
    let m0 = richat::no_fields();
    let m1 = FieldsModel { parts: Seq::empty(), created_at: Some(created_at) };
    let m2 = FieldsModel { parts: seq![(tag, payload)], created_at: Some(created_at) };
    let a = wire::bytes_field(11, codec::timestamp_bytes(created_at));
    let b = wire::bytes_field(tag, payload);
    let w = wire::delimited(codec::timestamp_bytes(created_at));
    assert forall|t: Seq<u8>|
        #[trigger] RichatFields::step(
            m0,
            11,
            WireType::LengthDelimited,
            w + t,
            0 + wire::key_bytes(11, WireType::LengthDelimited).len(),
        ) == Ok::<(FieldsModel, nat), Failure>((m1, w.len())) by {
        lemma_timestamp(created_at, t);
    }
    lemma_leads_field::<RichatFields>(m0, 0, 11, WireType::LengthDelimited, w, m1);
    let v = wire::delimited(payload);
    assert forall|t: Seq<u8>|
        #[trigger] RichatFields::step(
            m1,
            tag,
            WireType::LengthDelimited,
            v + t,
            a.len() + wire::key_bytes(tag, WireType::LengthDelimited).len(),
        ) == Ok::<(FieldsModel, nat), Failure>((m2, v.len())) by {
        lemma_delimited(payload, t, 0);
        assert(m1.parts.push((tag, payload)) =~= m2.parts);
    }
    lemma_leads_field::<RichatFields>(m1, a.len(), tag, WireType::LengthDelimited, v, m2);
    lemma_leads_on::<RichatFields>(m0, 0, a, m1, b, m2);
    lemma_leads_all::<RichatFields>(m0, a + b, m2);
}

/// An update that is none of the stream is decoded as one, and the parser that decodes updates in full
/// finds it to be one.
pub proof fn law_other_update_is_skipped(tag: u32, payload: Seq<u8>, created_at: Timestamp)
    requires
        100 <= tag <= 105,
        payload.len() <= u64::MAX,
        richat::richat_update(tag, payload) is Some,
    ensures
        richat::richat_envelope(encode::other_envelope(tag, payload, created_at)) == Ok::<
            RichatModel,
            Failure,
        >(RichatModel { update: Some((tag, payload)), created_at: Some(created_at) }),
        parser::no_update(encode::other_envelope(tag, payload, created_at))
            == ParseFailure::InvalidUpdateMessage("Richat"),
{
    lemma_other_fields(tag, payload, created_at);
    let parts = seq![(tag, payload)];
    assert(parts.drop_last() =~= Seq::<(u32, Seq<u8>)>::empty());
    reveal_with_fuel(richat::joined_all, 2);
}

// ---------------------------------------------------------------------------------------------
// What a validator tells of
// ---------------------------------------------------------------------------------------------

/// What a validator tells of comes in an envelope without filters, or in one of the updates that are
/// none of the stream.
pub proof fn law_update_bytes(tag: u32, payload: Seq<u8>, created_at: Timestamp)
    ensures
        protobuf::update_bytes(tag, payload, created_at) == if tag < 11 {
            encode::envelope_bytes(Seq::empty(), tag, payload, created_at)
        } else {
            encode::other_envelope(tag, payload, created_at)
        },
{
    if tag < 11 {
        let names = encode::utf8_each(Seq::empty());
        assert(names.len() == 0);
        assert(encode::repeated_field(1, names) == Seq::<u8>::empty());
        assert(protobuf::update_bytes(tag, payload, created_at) =~= encode::envelope_bytes(
            Seq::empty(),
            tag,
            payload,
            created_at,
        ));
    }
}

/// An account that a validator tells of is what the limited parser makes of its update.
pub proof fn law_told_account(a: AccountInfoView, slot: u64, created_at: Timestamp)
    requires
        readable(a),
        told_account(a, slot, created_at).len() <= u64::MAX,
    ensures
        message::limited_message(told_account(a, slot, created_at)) matches Ok(
            MessageView::Account(m),
        ) && m.content() == (AccountContent { info: a, slot, is_startup: false }) && m.created_at()
            == created_at,
{
    let payload = encode::account_bytes(
        AccountView { account: Some(a), slot, is_startup: false },
    );
    law_update_bytes(2, payload, created_at);
    law_envelope(Seq::empty(), 2, payload, created_at);
    law_limited_account(
        told_account(a, slot, created_at),
        payload_place(Seq::empty(), 2, payload),
        created_at,
    );
    law_encoded_account(a, slot, false);
}

/// The update of an account that a validator tells of.
pub open spec fn told_account(a: AccountInfoView, slot: u64, created_at: Timestamp) -> Seq<u8> {
    protobuf::update_bytes(
        2,
        encode::account_bytes(AccountView { account: Some(a), slot, is_startup: false }),
        created_at,
    )
}

} // verus!
