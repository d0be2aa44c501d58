//! Messages as runs of fields.
use vstd::prelude::*;

use crate::codec;
use crate::error;
use crate::error::{DecodeErrorKind, Failure, WireError};
use crate::wire;
use crate::wire::WireType;

verus! {

/// How a message takes in one field.
pub trait FieldStep: Sized {
    /// The message.
    type M;

    /// The message `m` after the field with `tag` and `wire_type`, whose value `rest` starts with
    /// and which lies `at` bytes into the buffer; and the length of that value.
    spec fn step(m: Self::M, tag: u32, wire_type: WireType, rest: Seq<u8>, at: nat) -> Result<
        (Self::M, nat),
        Failure,
    >;

    /// A value lies within the bytes that it was read from.
    proof fn lemma_step_bounds(m: Self::M, tag: u32, wire_type: WireType, rest: Seq<u8>, at: nat)
        ensures
            Self::step(m, tag, wire_type, rest, at) matches Ok((_, n)) ==> n <= rest.len(),
    ;
}

/// The message `m` after the fields that `s` starts with, while more than `limit` bytes are left;
/// and the length of these fields. `s` lies `at` bytes into the buffer.
pub open spec fn fields<S: FieldStep>(m: S::M, s: Seq<u8>, at: nat, limit: nat) -> Result<
    (S::M, nat),
    Failure,
>
    decreases s.len(),
{
    if s.len() <= limit {
        Ok((m, 0))
    } else {
        match wire::key(s) {
            None => Err(error::failure(DecodeErrorKind::InvalidKey)),
            Some((tag, wire_type, n)) => {
                proof {
                    wire::lemma_key_bounds(s);
                    S::lemma_step_bounds(m, tag, wire_type, s.skip(n as int), at + n);
                }
                match S::step(m, tag, wire_type, s.skip(n as int), at + n) {
                    Err(e) => Err(e),
                    Ok((m1, k)) => match fields::<S>(
                        m1,
                        s.skip((n + k) as int),
                        at + n + k,
                        limit,
                    ) {
                        Err(e) => Err(e),
                        Ok((m2, j)) => Ok((m2, n + k + j)),
                    },
                }
            },
        }
    }
}

/// The message `m` after all the fields of `s`.
pub open spec fn all_fields<S: FieldStep>(m: S::M, s: Seq<u8>) -> Result<S::M, Failure> {
    match fields::<S>(m, s, 0, 0) {
        Ok((m1, _)) => Ok(m1),
        Err(e) => Err(e),
    }
}

/// Fields lie within the bytes that they were read from, and only stop where the limit is met.
pub proof fn lemma_fields_bounds<S: FieldStep>(m: S::M, s: Seq<u8>, at: nat, limit: nat)
    ensures
        fields::<S>(m, s, at, limit) matches Ok((_, n)) ==> n <= s.len() && s.len() - n <= limit,
    decreases s.len(),
{
    if s.len() > limit {
        match wire::key(s) {
            None => {},
            Some((tag, wire_type, n)) => {
                wire::lemma_key_bounds(s);
                S::lemma_step_bounds(m, tag, wire_type, s.skip(n as int), at + n);
                match S::step(m, tag, wire_type, s.skip(n as int), at + n) {
                    Err(_) => {},
                    Ok((m1, k)) => {
                        lemma_fields_bounds::<S>(
                            m1,
                            s.skip((n + k) as int),
                            at + n + k,
                            limit,
                        );
                    },
                }
            },
        }
    }
}

/// A field and then the fields that follow it.
pub proof fn lemma_fields_cons<S: FieldStep>(m: S::M, s: Seq<u8>, at: nat, limit: nat)
    requires
        s.len() > limit,
        wire::key(s) is Some,
        S::step(
            m,
            wire::key(s)->Some_0.0,
            wire::key(s)->Some_0.1,
            s.skip(wire::key(s)->Some_0.2 as int),
            at + wire::key(s)->Some_0.2,
        ) is Ok,
    ensures
        ({
            let (tag, wire_type, n) = wire::key(s)->Some_0;
            let (m1, k) = S::step(m, tag, wire_type, s.skip(n as int), at + n)->Ok_0;
            &&& 1 <= n
            &&& n + k <= s.len()
            &&& fields::<S>(m, s, at, limit) == after(
                fields::<S>(m1, s.skip((n + k) as int), at + n + k, limit),
                n + k,
            )
        }),
{
    wire::lemma_key_bounds(s);
    let (tag, wire_type, n) = wire::key(s)->Some_0;
    S::lemma_step_bounds(m, tag, wire_type, s.skip(n as int), at + n);
}

/// Where there are fields, there is a first one.
pub proof fn lemma_fields_first<S: FieldStep>(m: S::M, s: Seq<u8>, at: nat, limit: nat)
    requires
        s.len() > limit,
        fields::<S>(m, s, at, limit) is Ok,
    ensures
        wire::key(s) is Some,
        S::step(
            m,
            wire::key(s)->Some_0.0,
            wire::key(s)->Some_0.1,
            s.skip(wire::key(s)->Some_0.2 as int),
            at + wire::key(s)->Some_0.2,
        ) is Ok,
{
}

/// The result `r` of fields that `n` bytes came before.
pub open spec fn after<M>(r: Result<(M, nat), Failure>, n: nat) -> Result<(M, nat), Failure> {
    match r {
        Ok((m, k)) => Ok((m, n + k)),
        Err(e) => Err(e),
    }
}

/// Code that takes in one field.
pub trait Merge: FieldStep {
    /// What the fields are merged into.
    type Target;

    /// The message that `target` holds.
    spec fn model(target: &Self::Target) -> Self::M;

    /// Whether a field with the tag is taken in as a whole or not at all. One that holds fields itself
    /// is taken in field by field.
    open spec fn at_once(tag: u32) -> bool {
        true
    }

    /// Takes the value of the field with `tag` and `wire_type` from the buffer, which is what is
    /// left of `buf_len` bytes.
    fn merge_field(
        target: &mut Self::Target,
        tag: u32,
        wire_type: WireType,
        buf: &mut &[u8],
        buf_len: usize,
    ) -> (r: Result<(), WireError>)
        requires
            old(buf)@.len() <= buf_len,
        ensures
            match Self::step(
                Self::model(old(target)),
                tag,
                wire_type,
                old(buf)@,
                (buf_len - old(buf)@.len()) as nat,
            ) {
                Ok((m, n)) => {
                    &&& r is Ok
                    &&& Self::model(final(target)) == m
                    &&& final(buf)@ == old(buf)@.skip(n as int)
                },
                Err(e) => {
                    &&& r is Err
                    &&& r->Err_0@ == e
                    &&& Self::at_once(tag) ==> Self::model(final(target)) == Self::model(old(target))
                },
            },
    ;
}

/// Takes fields from the buffer, which is what is left of `buf_len` bytes, while more than `limit`
/// bytes are left.
pub fn merge_loop<S: Merge>(
    target: &mut S::Target,
    buf: &mut &[u8],
    buf_len: usize,
    limit: usize,
) -> (r: Result<(), WireError>)
    requires
        old(buf)@.len() <= buf_len,
    ensures
        match fields::<S>(
            S::model(old(target)),
            old(buf)@,
            (buf_len - old(buf)@.len()) as nat,
            limit as nat,
        ) {
            Ok((m, n)) => {
                &&& r is Ok
                &&& S::model(final(target)) == m
                &&& final(buf)@ == old(buf)@.skip(n as int)
            },
            Err(e) => r is Err && r->Err_0@ == e,
        },
{
    let ghost m0 = S::model(target);
    let ghost s0 = buf@;
    let ghost at0 = (buf_len - buf@.len()) as nat;
    let ghost mut c: nat = 0;
    proof {
        assert(s0.skip(0) =~= s0);
    }
    while buf.len() > limit
        invariant
            m0 == S::model(old(target)),
            s0 == old(buf)@,
            c <= s0.len() <= buf_len,
            at0 == buf_len - s0.len(),
            buf@ == s0.skip(c as int),
            fields::<S>(m0, s0, at0, limit as nat) == after(
                fields::<S>(S::model(target), buf@, at0 + c, limit as nat),
                c,
            ),
        decreases buf@.len(),
    {
        let ghost m1 = S::model(target);
        let ghost s1 = buf@;
        proof {
            wire::lemma_key_bounds(s1);
        }
        let (tag, wire_type) = match codec::decode_key(buf) {
            Ok(key) => key,
            Err(_) => return Err(error::create_decode_error(DecodeErrorKind::InvalidKey)),
        };
        let ghost s2 = buf@;
        proof {
            S::lemma_step_bounds(m1, tag, wire_type, s2, (buf_len - s2.len()) as nat);
        }
        match S::merge_field(target, tag, wire_type, buf, buf_len) {
            Ok(()) => {},
            Err(e) => return Err(e),
        }
        proof {
            let n = wire::key(s1)->Some_0.2;
            let k = S::step(m1, tag, wire_type, s2, (at0 + c + n) as nat)->Ok_0.1;
            assert(s2.skip(k as int) =~= s1.skip((n + k) as int));
            assert(buf@ =~= s0.skip((c + n + k) as int));
            c = c + n + k;
        }
    }
    Ok(())
}

} // verus!
