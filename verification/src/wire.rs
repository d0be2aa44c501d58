//! The Protobuf wire format: varints, keys, and the fields that the keys introduce.
//!
//! Everything here is mathematics on byte sequences. The functions that read and write those bytes
//! are in [`crate::codec`].
use vstd::prelude::*;

verus! {

/// How the value of a field is laid out.
#[derive(Debug, Clone, Copy, PartialEq, Eq, Structural)]
pub enum WireType {
    Varint,
    SixtyFourBit,
    LengthDelimited,
    StartGroup,
    EndGroup,
    ThirtyTwoBit,
}

/// The number that stands for a wire type in the low three bits of a key.
pub open spec fn wire_number(wire_type: WireType) -> nat {
    match wire_type {
        WireType::Varint => 0,
        WireType::SixtyFourBit => 1,
        WireType::LengthDelimited => 2,
        WireType::StartGroup => 3,
        WireType::EndGroup => 4,
        WireType::ThirtyTwoBit => 5,
    }
}

/// The wire type that `number` stands for, where it stands for one.
pub open spec fn wire_type_of(number: nat) -> Option<WireType> {
    if number == 0 {
        Some(WireType::Varint)
    } else if number == 1 {
        Some(WireType::SixtyFourBit)
    } else if number == 2 {
        Some(WireType::LengthDelimited)
    } else if number == 3 {
        Some(WireType::StartGroup)
    } else if number == 4 {
        Some(WireType::EndGroup)
    } else if number == 5 {
        Some(WireType::ThirtyTwoBit)
    } else {
        None
    }
}

/// The largest tag of a field.
pub const MAX_TAG: u32 = 0x1fff_ffff;

/// How deep groups may nest.
pub const RECURSION_LIMIT: u32 = 100;

// ---------------------------------------------------------------------------------------------
// Varints
// ---------------------------------------------------------------------------------------------

/// The value and the length of the varint that `s` starts with, where `i` bytes of that varint
/// came before `s`: seven bits a byte, the low ones first, the high bit set in all bytes but the
/// last. A varint has at most ten bytes, and a tenth byte adds at most one bit.
pub open spec fn varint_from(s: Seq<u8>, i: nat) -> Option<(nat, nat)>
    decreases 10 - i,
{
    if i >= 10 || s.len() == 0 {
        None
    } else if s[0] < 0x80 {
        if i == 9 && s[0] >= 2 {
            None
        } else {
            Some((s[0] as nat, 1))
        }
    } else {
        match varint_from(s.skip(1), i + 1) {
            Some((v, n)) => Some(((s[0] - 0x80) as nat + 128 * v, n + 1)),
            None => None,
        }
    }
}

/// The value and the length of the varint that `s` starts with.
pub open spec fn varint(s: Seq<u8>) -> Option<(u64, nat)> {
    match varint_from(s, 0) {
        Some((v, n)) => Some((v as u64, n)),
        None => None,
    }
}

/// The shortest varint of `v`.
pub open spec fn varint_bytes(v: nat) -> Seq<u8>
    decreases v,
{
    if v < 0x80 {
        seq![v as u8]
    } else {
        seq![(v % 128 + 128) as u8] + varint_bytes(v / 128)
    }
}

/// One more than the largest value of a varint of which `i` bytes came before.
pub open spec fn varint_cap(i: nat) -> nat
    decreases 9 - i,
{
    if i >= 9 {
        2
    } else {
        128 * varint_cap(i + 1)
    }
}

pub proof fn lemma_varint_cap_0()
    ensures
        varint_cap(0) == 0x1_0000_0000_0000_0000,
{
    reveal_with_fuel(varint_cap, 11);
}

pub proof fn lemma_varint_cap_low(i: nat)
    requires
        i < 9,
    ensures
        varint_cap(i) >= 256,
    decreases 9 - i,
{
    reveal_with_fuel(varint_cap, 2);
    if i < 8 {
        lemma_varint_cap_low(i + 1);
    }
}

/// A varint is not empty, lies within the bytes that it was read from, and fits 64 bits.
pub proof fn lemma_varint_from_bounds(s: Seq<u8>, i: nat)
    ensures
        varint_from(s, i) matches Some((v, n)) ==> {
            &&& v < varint_cap(i)
            &&& 1 <= n <= 10 - i
            &&& n <= s.len()
        },
    decreases 10 - i,
{
    if i >= 10 || s.len() == 0 {
    } else if s[0] < 0x80 {
        if i < 9 {
            lemma_varint_cap_low(i);
        }
    } else {
        lemma_varint_from_bounds(s.skip(1), i + 1);
    }
}

pub proof fn lemma_varint_bounds(s: Seq<u8>)
    ensures
        varint(s) matches Some((v, n)) ==> {
            &&& 1 <= n <= 10
            &&& n <= s.len()
            &&& varint_from(s, 0) == Some((v as nat, n))
        },
{
    lemma_varint_from_bounds(s, 0);
    lemma_varint_cap_0();
}

/// What follows a varint does not change it.
pub proof fn lemma_varint_from_stable(s: Seq<u8>, t: Seq<u8>, i: nat)
    requires
        varint_from(s, i) is Some,
        varint_from(s, i)->Some_0.1 <= t.len(),
        s.take(varint_from(s, i)->Some_0.1 as int) == t.take(varint_from(s, i)->Some_0.1 as int),
    ensures
        varint_from(t, i) == varint_from(s, i),
    decreases 10 - i,
{
    lemma_varint_from_bounds(s, i);
    let n = varint_from(s, i)->Some_0.1;
    assert(s.take(n as int)[0] == t.take(n as int)[0]);
    if s[0] >= 0x80 {
        lemma_varint_from_bounds(s.skip(1), i + 1);
        assert forall|j: int| 0 <= j < n - 1 implies s.skip(1)[j] == t.skip(1)[j] by {
            assert(s.take(n as int)[j + 1] == t.take(n as int)[j + 1]);
        }
        assert(s.skip(1).take(n - 1) =~= t.skip(1).take(n - 1));
        lemma_varint_from_stable(s.skip(1), t.skip(1), i + 1);
    }
}

pub proof fn lemma_varint_stable(s: Seq<u8>, t: Seq<u8>)
    requires
        varint(s) is Some,
        varint(s)->Some_0.1 <= t.len(),
        s.take(varint(s)->Some_0.1 as int) == t.take(varint(s)->Some_0.1 as int),
    ensures
        varint(t) == varint(s),
{
    lemma_varint_from_stable(s, t, 0);
}

pub proof fn lemma_varint_bytes_len(v: nat, i: nat)
    requires
        v < varint_cap(i),
        i < 10,
    ensures
        1 <= varint_bytes(v).len() <= 10 - i,
    decreases v,
{
    if v >= 0x80 {
        reveal_with_fuel(varint_cap, 2);
        lemma_varint_bytes_len(v / 128, i + 1);
    }
}

/// The length of a varint of a 64-bit value.
pub proof fn lemma_varint_len(v: u64)
    ensures
        1 <= varint_bytes(v as nat).len() <= 10,
{
    lemma_varint_cap_0();
    lemma_varint_bytes_len(v as nat, 0);
}

pub proof fn lemma_varint_from_bytes(v: nat, t: Seq<u8>, i: nat)
    requires
        v < varint_cap(i),
        i < 10,
    ensures
        varint_from(varint_bytes(v) + t, i) == Some((v, varint_bytes(v).len())),
    decreases v,
{
    let s = varint_bytes(v) + t;
    reveal_with_fuel(varint_cap, 2);
    if v < 0x80 {
        assert(s[0] == v as u8);
    } else {
        assert(s[0] == (v % 128 + 128) as u8);
        assert(s.skip(1) =~= varint_bytes(v / 128) + t);
        lemma_varint_from_bytes(v / 128, t, i + 1);
    }
}

/// Reading gives back the value that was written, and nothing of what follows it.
pub proof fn lemma_varint_round_trip(v: u64, t: Seq<u8>)
    ensures
        varint(varint_bytes(v as nat) + t) == Some((v, varint_bytes(v as nat).len())),
{
    lemma_varint_cap_0();
    lemma_varint_from_bytes(v as nat, t, 0);
}

// ---------------------------------------------------------------------------------------------
// Keys
// ---------------------------------------------------------------------------------------------

/// The tag, the wire type and the length of the key that `s` starts with.
pub open spec fn key(s: Seq<u8>) -> Option<(u32, WireType, nat)> {
    match varint(s) {
        Some((k, n)) => if k <= u32::MAX && k / 8 >= 1 {
            match wire_type_of((k % 8) as nat) {
                Some(wire_type) => Some(((k / 8) as u32, wire_type, n)),
                None => None,
            }
        } else {
            None
        },
        None => None,
    }
}

/// The bytes of a key.
pub open spec fn key_bytes(tag: u32, wire_type: WireType) -> Seq<u8> {
    varint_bytes((tag * 8 + wire_number(wire_type)) as nat)
}

pub proof fn lemma_key_bounds(s: Seq<u8>)
    ensures
        key(s) matches Some((tag, wire_type, n)) ==> {
            &&& 1 <= n <= 10
            &&& n <= s.len()
            &&& 1 <= tag <= MAX_TAG
        },
{
    lemma_varint_bounds(s);
}

pub proof fn lemma_key_stable(s: Seq<u8>, t: Seq<u8>)
    requires
        key(s) is Some,
        key(s)->Some_0.2 <= t.len(),
        s.take(key(s)->Some_0.2 as int) == t.take(key(s)->Some_0.2 as int),
    ensures
        key(t) == key(s),
{
    lemma_varint_stable(s, t);
}

pub proof fn lemma_key_round_trip(tag: u32, wire_type: WireType, t: Seq<u8>)
    requires
        1 <= tag <= MAX_TAG,
    ensures
        key(key_bytes(tag, wire_type) + t) == Some(
            (tag, wire_type, key_bytes(tag, wire_type).len()),
        ),
        1 <= key_bytes(tag, wire_type).len() <= 10,
{
    let k = (tag * 8 + wire_number(wire_type)) as u64;
    lemma_varint_round_trip(k, t);
    lemma_varint_len(k);
}

// ---------------------------------------------------------------------------------------------
// Fields
// ---------------------------------------------------------------------------------------------

/// The length of the value of a field that `s` starts with, the key not counted, where groups may
/// nest `depth` deep.
pub open spec fn field_len(wire_type: WireType, tag: u32, s: Seq<u8>, depth: nat) -> Option<nat>
    decreases depth, s.len(), 1int,
{
    if depth == 0 {
        None
    } else {
        match wire_type {
            WireType::Varint => match varint(s) {
                Some((_, n)) => Some(n),
                None => None,
            },
            WireType::SixtyFourBit => if s.len() >= 8 {
                Some(8)
            } else {
                None
            },
            WireType::LengthDelimited => delimited_len(s),
            WireType::StartGroup => group_len(tag, s, depth),
            WireType::EndGroup => None,
            WireType::ThirtyTwoBit => if s.len() >= 4 {
                Some(4)
            } else {
                None
            },
        }
    }
}

/// The length of what is left of a group, up to and with the end key of its own tag.
pub open spec fn group_len(tag: u32, s: Seq<u8>, depth: nat) -> Option<nat>
    decreases depth, s.len(), 0int,
{
    if depth == 0 {
        None
    } else {
        match key(s) {
            Some((inner, WireType::EndGroup, n)) => if inner == tag {
                Some(n)
            } else {
                None
            },
            Some((inner, wire_type, n)) => match field_len(
                wire_type,
                inner,
                s.skip(n as int),
                (depth - 1) as nat,
            ) {
                Some(m) => if 1 <= n && n + m <= s.len() {
                    match group_len(tag, s.skip((n + m) as int), depth) {
                        Some(k) => Some(n + m + k),
                        None => None,
                    }
                } else {
                    None
                },
                None => None,
            },
            None => None,
        }
    }
}

/// The length of a length-delimited value: the length prefix and the bytes that it counts.
pub open spec fn delimited_len(s: Seq<u8>) -> Option<nat> {
    match varint(s) {
        Some((len, n)) => if n + len <= s.len() {
            Some((n + len) as nat)
        } else {
            None
        },
        None => None,
    }
}

pub proof fn lemma_field_len_bounds(wire_type: WireType, tag: u32, s: Seq<u8>, depth: nat)
    ensures
        field_len(wire_type, tag, s, depth) matches Some(n) ==> n <= s.len(),
    decreases depth, s.len(), 1int,
{
    lemma_varint_bounds(s);
    if depth > 0 && wire_type is StartGroup {
        lemma_group_len_bounds(tag, s, depth);
    }
}

pub proof fn lemma_group_len_bounds(tag: u32, s: Seq<u8>, depth: nat)
    ensures
        group_len(tag, s, depth) matches Some(n) ==> n <= s.len(),
    decreases depth, s.len(), 0int,
{
    if depth > 0 {
        lemma_key_bounds(s);
        match key(s) {
            Some((inner, wire_type, n)) => {
                if !(wire_type is EndGroup) {
                    lemma_field_len_bounds(wire_type, inner, s.skip(n as int), (depth - 1) as nat);
                    match field_len(wire_type, inner, s.skip(n as int), (depth - 1) as nat) {
                        Some(m) => {
                            lemma_group_len_bounds(tag, s.skip((n + m) as int), depth);
                        },
                        None => {},
                    }
                }
            },
            None => {},
        }
    }
}

/// What follows a field does not change its length.
pub proof fn lemma_field_len_stable(
    wire_type: WireType,
    tag: u32,
    s: Seq<u8>,
    t: Seq<u8>,
    depth: nat,
)
    requires
        field_len(wire_type, tag, s, depth) is Some,
        field_len(wire_type, tag, s, depth)->0 <= t.len(),
        s.take(field_len(wire_type, tag, s, depth)->0 as int) == t.take(
            field_len(wire_type, tag, s, depth)->0 as int,
        ),
    ensures
        field_len(wire_type, tag, t, depth) == field_len(wire_type, tag, s, depth),
    decreases depth, s.len(), 1int,
{
    lemma_field_len_bounds(wire_type, tag, s, depth);
    let n = field_len(wire_type, tag, s, depth)->0;
    match wire_type {
        WireType::Varint => {
            lemma_varint_stable(s, t);
        },
        WireType::LengthDelimited => {
            lemma_varint_bounds(s);
            let k = varint(s)->Some_0.1;
            assert(s.take(k as int) =~= s.take(n as int).take(k as int));
            assert(t.take(k as int) =~= t.take(n as int).take(k as int));
            lemma_varint_stable(s, t);
        },
        WireType::StartGroup => {
            lemma_group_len_stable(tag, s, t, depth);
        },
        _ => {},
    }
}

pub proof fn lemma_group_len_stable(tag: u32, s: Seq<u8>, t: Seq<u8>, depth: nat)
    requires
        group_len(tag, s, depth) is Some,
        group_len(tag, s, depth)->0 <= t.len(),
        s.take(group_len(tag, s, depth)->0 as int) == t.take(group_len(tag, s, depth)->0 as int),
    ensures
        group_len(tag, t, depth) == group_len(tag, s, depth),
    decreases depth, s.len(), 0int,
{
    lemma_group_len_bounds(tag, s, depth);
    lemma_key_bounds(s);
    let total = group_len(tag, s, depth)->0;
    let (inner, wire_type, n) = key(s)->0;
    if wire_type is EndGroup {
        lemma_key_stable(s, t);
    } else {
        let m = field_len(wire_type, inner, s.skip(n as int), (depth - 1) as nat)->0;
        lemma_field_len_bounds(wire_type, inner, s.skip(n as int), (depth - 1) as nat);
        lemma_group_len_bounds(tag, s.skip((n + m) as int), depth);
        lemma_agree(s, t, total as int, 0, n as int);
        lemma_key_stable(s, t);
        lemma_agree(s, t, total as int, n as int, m as int);
        lemma_field_len_stable(
            wire_type,
            inner,
            s.skip(n as int),
            t.skip(n as int),
            (depth - 1) as nat,
        );
        lemma_agree(s, t, total as int, (n + m) as int, (total - n - m) as int);
        lemma_group_len_stable(tag, s.skip((n + m) as int), t.skip((n + m) as int), depth);
    }
}

/// Two sequences that agree on their first `total` elements agree on any run among these.
pub proof fn lemma_agree(s: Seq<u8>, t: Seq<u8>, total: int, from: int, len: int)
    requires
        0 <= from,
        0 <= len,
        from + len <= total,
        total <= s.len(),
        total <= t.len(),
        s.take(total) == t.take(total),
    ensures
        s.skip(from).take(len) == t.skip(from).take(len),
        from == 0 ==> s.take(len) == t.take(len),
{
    assert forall|j: int| 0 <= j < len implies s.skip(from)[j] == t.skip(from)[j] by {
        let k = from + j;
        assert(s.take(total)[k] == s[k] && t.take(total)[k] == t[k]);
        assert(s.skip(from)[j] == s[k] && t.skip(from)[j] == t[k]);
    }
    assert(s.skip(from).take(len) =~= t.skip(from).take(len));
    if from == 0 {
        assert(s.skip(0) =~= s);
        assert(t.skip(0) =~= t);
    }
}

/// A field with a varint value.
pub open spec fn varint_field(tag: u32, v: u64) -> Seq<u8> {
    key_bytes(tag, WireType::Varint) + varint_bytes(v as nat)
}

/// The length prefix of `payload` and `payload` itself.
pub open spec fn delimited(payload: Seq<u8>) -> Seq<u8> {
    varint_bytes(payload.len()) + payload
}

/// A length-delimited field.
pub open spec fn bytes_field(tag: u32, payload: Seq<u8>) -> Seq<u8> {
    key_bytes(tag, WireType::LengthDelimited) + delimited(payload)
}

/// A varint field that is left out where its value is zero.
pub open spec fn varint_field_opt(tag: u32, v: u64) -> Seq<u8> {
    if v == 0 {
        Seq::empty()
    } else {
        varint_field(tag, v)
    }
}

/// A length-delimited field that is left out where it is empty.
pub open spec fn bytes_field_opt(tag: u32, payload: Seq<u8>) -> Seq<u8> {
    if payload.len() == 0 {
        Seq::empty()
    } else {
        bytes_field(tag, payload)
    }
}

/// A flag, left out where it is false.
pub open spec fn bool_field_opt(tag: u32, v: bool) -> Seq<u8> {
    if v {
        varint_field(tag, 1)
    } else {
        Seq::empty()
    }
}

} // verus!
