//! A ring of messages: the latest ones, each at its position.
use std::sync::Arc;

use vstd::arithmetic::div_mod::lemma_fundamental_div_mod_converse;
use vstd::arithmetic::power2::pow2;
use vstd::prelude::*;

use crate::collections;
use crate::pubkey::Slot;

verus! {

/// What a message tells of.
#[derive(Debug, Clone, Copy, PartialEq, Eq, Structural)]
pub enum PluginNotification {
    Slot,
    Account,
    Transaction,
    Entry,
    BlockMeta,
    DeshredTransaction,
    ContactInfo,
    BlockFooter,
    EntryUpdateParent,
}

/// A message in the ring.
pub ghost struct Stored {
    pub kind: PluginNotification,
    pub slot: Slot,
    pub data: Seq<u8>,
}

/// A place of the ring.
#[derive(Debug)]
struct Item {
    pos: u64,
    slot: Slot,
    data: Option<(PluginNotification, Arc<Vec<u8>>)>,
}

/// What the place holds.
spec fn stored(item: Item) -> Stored {
    Stored {
        kind: item.data->Some_0.0,
        slot: item.slot,
        data: (*item.data->Some_0.1)@,
    }
}

/// The latest messages.
#[derive(Debug)]
pub struct Ring {
    head: u64,
    tail: u64,
    mask: u64,
    buffer: Vec<Item>,
    bytes_total: usize,
}

/// What a ring holds: its messages in order, the position of the last of them, and how many fit.
pub ghost struct RingView {
    pub live: Seq<Stored>,
    pub tail: nat,
    pub capacity: nat,
}

/// The length of the data of the messages.
pub open spec fn bytes_of(live: Seq<Stored>) -> nat
    decreases live.len(),
{
    if live.len() == 0 {
        0
    } else {
        bytes_of(live.drop_last()) + live.last().data.len()
    }
}

/// The length of the data without the first message.
pub proof fn lemma_bytes_first(live: Seq<Stored>)
    requires
        live.len() > 0,
    ensures
        bytes_of(live) == live[0].data.len() + bytes_of(live.skip(1)),
    decreases live.len(),
{
    if live.len() == 1 {
        assert(live.skip(1) =~= Seq::<Stored>::empty());
        assert(live.drop_last() =~= Seq::<Stored>::empty());
        assert(bytes_of(live.drop_last()) == 0);
    } else {
        lemma_bytes_first(live.drop_last());
        assert(live.drop_last().skip(1) =~= live.skip(1).drop_last());
        assert(live.skip(1).last() == live.last());
    }
}

/// The position that the place `i` of a ring was last written for, or `i` where it was not written
/// yet. The first position that is written for is the one after the capacity.
pub open spec fn last_pos(tail: int, capacity: int, i: int) -> int {
    let p = tail - (tail - i) % capacity;
    if p > capacity {
        p
    } else {
        i
    }
}

proof fn lemma_last_pos(tail: int, capacity: int, i: int)
    requires
        0 <= i < capacity <= tail,
    ensures
        0 <= last_pos(tail, capacity, i) <= tail,
        last_pos(tail, capacity, i) > capacity ==> {
            &&& last_pos(tail, capacity, i) > tail - capacity
            &&& last_pos(tail, capacity, i) % capacity == i
        },
{
    let r = (tail - i) % capacity;
    let q = (tail - i) / capacity;
    assert(tail - r == q * capacity + i) by (nonlinear_arith)
        requires
            capacity > 0,
            r == (tail - i) % capacity,
            q == (tail - i) / capacity,
    ;
    lemma_fundamental_div_mod_converse(tail - r, capacity, q, i);
    assert(0 <= (tail - i) % capacity < capacity) by (nonlinear_arith)
        requires
            capacity > 0,
    ;
    assert((tail - i) % capacity <= tail - i) by (nonlinear_arith)
        requires
            capacity > 0,
            tail - i >= 0,
    ;
}

/// The last positions up to `tail` are where they were written.
proof fn lemma_recent(tail: int, capacity: int, pos: int)
    requires
        0 < capacity < pos <= tail,
        tail - pos < capacity,
    ensures
        0 <= pos % capacity < capacity,
        last_pos(tail, capacity, pos % capacity) == pos,
{
    let i = pos % capacity;
    let q = pos / capacity;
    assert(0 <= i < capacity && pos == q * capacity + i) by (nonlinear_arith)
        requires
            capacity > 0,
            i == pos % capacity,
            q == pos / capacity,
    ;
    lemma_fundamental_div_mod_converse(tail - i, capacity, q, tail - pos);
}

/// Writing for the next position leaves the other places as they are.
proof fn lemma_next(tail: int, capacity: int, i: int)
    requires
        0 <= i < capacity <= tail,
    ensures
        0 <= (tail + 1) % capacity < capacity,
        last_pos(tail + 1, capacity, i) == if i == (tail + 1) % capacity {
            tail + 1
        } else {
            last_pos(tail, capacity, i)
        },
{
    let r = (tail - i) % capacity;
    let q = (tail - i) / capacity;
    assert(0 <= r < capacity && tail - i == q * capacity + r) by (nonlinear_arith)
        requires
            capacity > 0,
            r == (tail - i) % capacity,
            q == (tail - i) / capacity,
    ;
    if r + 1 < capacity {
        lemma_fundamental_div_mod_converse(tail + 1 - i, capacity, q, r + 1);
        if i == (tail + 1) % capacity {
            let p = (tail + 1) / capacity;
            assert(tail + 1 == p * capacity + i) by (nonlinear_arith)
                requires
                    capacity > 0,
                    i == (tail + 1) % capacity,
                    p == (tail + 1) / capacity,
            ;
            lemma_fundamental_div_mod_converse(tail + 1 - i, capacity, p, 0);
            assert(false);
        }
    } else {
        assert(tail + 1 - i == (q + 1) * capacity) by (nonlinear_arith)
            requires
                tail - i == q * capacity + r,
                r + 1 == capacity,
        ;
        lemma_fundamental_div_mod_converse(tail + 1 - i, capacity, q + 1, 0);
        lemma_fundamental_div_mod_converse(tail + 1, capacity, q + 1, i);
    }
    assert(0 <= (tail + 1) % capacity < capacity) by (nonlinear_arith)
        requires
            capacity > 0,
    ;
}

/// The place for the next position was last written for one round before.
proof fn lemma_round(tail: int, capacity: int)
    requires
        0 < capacity <= tail,
    ensures
        last_pos(tail, capacity, (tail + 1) % capacity) == if tail + 1 - capacity > capacity {
            tail + 1 - capacity
        } else {
            (tail + 1) % capacity
        },
        (tail + 1 - capacity) % capacity == (tail + 1) % capacity,
{
    let i = (tail + 1) % capacity;
    let q = (tail + 1) / capacity;
    assert(0 <= i < capacity && tail + 1 == q * capacity + i) by (nonlinear_arith)
        requires
            capacity > 0,
            i == (tail + 1) % capacity,
            q == (tail + 1) / capacity,
    ;
    assert(tail - i == (q - 1) * capacity + (capacity - 1)) by (nonlinear_arith)
        requires
            tail + 1 == q * capacity + i,
    ;
    lemma_fundamental_div_mod_converse(tail - i, capacity, q - 1, capacity - 1);
    assert(tail + 1 - capacity == (q - 1) * capacity + i) by (nonlinear_arith)
        requires
            tail + 1 == q * capacity + i,
    ;
    lemma_fundamental_div_mod_converse(tail + 1 - capacity, capacity, q - 1, i);
}

/// What is at a position.
#[derive(Debug)]
pub enum At {
    /// Nothing was written for it yet.
    Ahead,
    /// What was written for it is gone, and something else is in its place.
    Behind,
    /// What was written for it is gone.
    Gone,
    /// A message.
    Message(PluginNotification, Arc<Vec<u8>>),
}

impl RingView {
    /// The position of the first message.
    pub open spec fn head(self) -> int {
        self.tail + 1 - self.live.len()
    }

    /// The message at the position.
    pub open spec fn at(self, pos: int) -> Stored {
        self.live[pos - self.head()]
    }

    /// Whether there is a message at the position.
    pub open spec fn holds(self, pos: int) -> bool {
        self.head() <= pos <= self.tail
    }

    /// The position that the place of the position was last written for.
    pub open spec fn written(self, pos: int) -> int {
        last_pos(self.tail as int, self.capacity as int, pos % (self.capacity as int))
    }

    /// Whether nothing was written for the position yet. For the position that equals the capacity,
    /// nothing ever is: it counts as written for once the ring comes round.
    pub open spec fn ahead(self, pos: int) -> bool {
        self.written(pos) < pos
    }
}

impl View for Ring {
    type V = RingView;

    closed spec fn view(&self) -> RingView {
        RingView {
            live: Seq::new(
                (self.tail + 1 - self.head) as nat,
                |i: int| stored(self.buffer@[(self.head + i) % (self.buffer@.len() as int)]),
            ),
            tail: self.tail as nat,
            capacity: self.buffer@.len(),
        }
    }
}

impl Ring {
    /// The messages are where their positions say, and nothing else is kept.
    pub closed spec fn wf(&self) -> bool {
        let capacity = self.buffer@.len() as int;
        &&& exists|k: nat| k < 64 && capacity == #[trigger] pow2(k)
        &&& self.mask == capacity - 1
        &&& 0 < capacity < self.head
        &&& capacity <= self.tail
        &&& self.head <= self.tail + 1 <= self.head + capacity
        &&& forall|i: int|
            0 <= i < capacity ==> (#[trigger] self.buffer@[i]).pos == last_pos(
                self.tail as int,
                capacity,
                i,
            )
        &&& forall|i: int|
            0 <= i < capacity ==> ((#[trigger] self.buffer@[i]).data is Some <==> self.head
                <= self.buffer@[i].pos)
        &&& self.bytes_total == bytes_of(self@.live)
    }

    /// A ring for at least so many messages, and for the smallest such power of two.
    pub fn new(max_messages: usize) -> (r: Self)
        requires
            max_messages <= usize::MAX / 2 + 1,
        ensures
            r.wf(),
            r@.live == Seq::<Stored>::empty(),
            r@.tail == r@.capacity,
            max_messages <= r@.capacity,
            exists|k: nat| r@.capacity == #[trigger] pow2(k),
            r@.capacity > 1 ==> r@.capacity < 2 * max_messages,
    {
        let (capacity, Ghost(k)) = next_power_of_two(max_messages);
        let mut buffer: Vec<Item> = Vec::new();
        let mut i: usize = 0;
        while i < capacity
            invariant
                i <= capacity,
                buffer@.len() == i,
                forall|j: int|
                    0 <= j < i ==> (#[trigger] buffer@[j]).pos == j && buffer@[j].data is None,
            decreases capacity - i,
        {
            buffer.push(Item { pos: i as u64, slot: 0, data: None });
            i = i + 1;
        }
        let r = Ring {
            head: capacity as u64 + 1,
            tail: capacity as u64,
            mask: (capacity - 1) as u64,
            buffer,
            bytes_total: 0,
        };
        proof {
            assert(r@.live =~= Seq::<Stored>::empty());
            assert forall|i: int| 0 <= i < capacity implies last_pos(
                capacity as int,
                capacity as int,
                i,
            ) == i by {
                lemma_last_pos(capacity as int, capacity as int, i);
            }
            assert(capacity == pow2(k));
        }
        r
    }

    /// The place of the position.
    fn get_idx(&self, pos: u64) -> (r: usize)
        requires
            self.wf(),
        ensures
            r == pos % (self.buffer@.len() as u64),
            r < self.buffer@.len(),
    {
        proof {
            let k = choose|k: nat| k < 64 && self.buffer@.len() == #[trigger] pow2(k);
            vstd::bits::lemma_u64_low_bits_mask_is_mod(pos, k);
            vstd::bits::lemma_u64_pow2_no_overflow(k);
            assert(vstd::bits::low_bits_mask(k) == self.mask);
            assert(self.buffer@.len() as u64 == pow2(k) as u64);
            let n = self.buffer@.len() as u64;
            assert(pos % n < n);
        }
        let len: usize = self.buffer.len();
        assert(pos & self.mask < len);
        (pos & self.mask) as usize
    }
}

impl Ring {
    /// The message at each position.
    proof fn lemma_live(&self, pos: int)
        requires
            self.wf(),
            self.head <= pos <= self.tail,
        ensures
            ({
                let i = pos % (self.buffer@.len() as int);
                &&& 0 <= i < self.buffer@.len()
                &&& self.buffer@[i].pos == pos
                &&& self.buffer@[i].data is Some
                &&& self@.at(pos) == stored(self.buffer@[i])
            }),
    {
        lemma_recent(self.tail as int, self.buffer@.len() as int, pos);
        assert(self.head + (pos - self.head) == pos);
    }

    /// The sizes of a ring.
    pub proof fn lemma_sizes(&self)
        requires
            self.wf(),
        ensures
            self@.live.len() <= self@.capacity,
            0 < self@.capacity <= self@.tail <= u64::MAX,
            self@.capacity < self@.head(),
    {
    }

    /// No position beyond the last message was written for.
    pub proof fn lemma_written(&self, pos: int)
        requires
            self.wf(),
            0 <= pos,
        ensures
            self@.written(pos) <= self@.tail,
    {
        let capacity = self.buffer@.len() as int;
        assert(0 <= pos % capacity < capacity) by (nonlinear_arith)
            requires
                capacity > 0,
        ;
        lemma_last_pos(self.tail as int, capacity, pos % capacity);
    }

    /// How many messages there are.
    pub fn len(&self) -> (r: u64)
        requires
            self.wf(),
        ensures
            r == self@.live.len(),
    {
        if self.head > self.tail {
            0
        } else {
            self.tail - self.head + 1
        }
    }

    /// The position of the last message.
    pub fn tail(&self) -> (r: u64)
        ensures
            r == self@.tail,
    {
        self.tail
    }

    /// The length of the data of the messages.
    pub fn bytes_total(&self) -> (r: usize)
        requires
            self.wf(),
        ensures
            r == bytes_of(self@.live),
    {
        self.bytes_total
    }

    /// Puts a message at the end. Where the ring is full, the first message goes; its slot is told.
    #[verifier::rlimit(40)]
    pub fn push(&mut self, kind: PluginNotification, slot: Slot, data: Vec<u8>) -> (r: Option<Slot>)
        requires
            old(self).wf(),
            old(self)@.tail < u64::MAX,
            bytes_of(old(self)@.live) + data@.len() <= usize::MAX,
        ensures
            final(self).wf(),
            final(self)@.capacity == old(self)@.capacity,
            final(self)@.tail == old(self)@.tail + 1,
            ({
                let before = old(self)@.live;
                let added = Stored { kind, slot, data: data@ };
                if before.len() == old(self)@.capacity {
                    &&& r == Some(before[0].slot)
                    &&& final(self)@.live == before.skip(1).push(added)
                } else {
                    &&& r is None
                    &&& final(self)@.live == before.push(added)
                }
            }),
    {
        let ghost before = *self;
        let ghost capacity = self.buffer@.len() as int;
        let ghost added = Stored { kind, slot, data: data@ };
        let tail: u64 = self.tail + 1;
        let idx: usize = self.get_idx(tail);
        proof {
            lemma_round(self.tail as int, capacity);
            if self@.live.len() == capacity {
                self.lemma_live(self.head as int);
                lemma_bytes_first(self@.live);
            }
        }
        let len: usize = data.len();
        let (removed, gone): (Option<Slot>, usize) = match &self.buffer[idx].data {
            Some((_, message)) => (Some(self.buffer[idx].slot), message.len()),
            None => (None, 0),
        };
        self.bytes_total = self.bytes_total + len - gone;
        if removed.is_some() {
            self.head = self.head + 1;
        }
        self.tail = tail;
        self.buffer.set(idx, Item { pos: tail, slot, data: Some((kind, Arc::new(data))) });
        proof {
            let live = if removed is Some {
                before@.live.skip(1)
            } else {
                before@.live
            };
            assert forall|i: int| 0 <= i < capacity implies (#[trigger] self.buffer@[i]).pos
                == last_pos(tail as int, capacity, i) && (self.buffer@[i].data is Some <==> self.head
                <= self.buffer@[i].pos) by {
                lemma_next(before.tail as int, capacity, i);
                lemma_last_pos(before.tail as int, capacity, i);
                if i != idx {
                    assert(self.buffer@[i] == before.buffer@[i]);
                }
            }
            assert(self@.live.len() == live.len() + 1);
            assert forall|j: int| 0 <= j < live.len() implies #[trigger] self@.live[j]
                == live[j] by {
                let p = self.head + j;
                lemma_recent(tail as int, capacity, p);
                lemma_recent(tail as int, capacity, tail as int);
                assert(p % capacity != idx);
                assert(self.buffer@[p % capacity] == before.buffer@[p % capacity]);
                assert(before.head + (p - before.head) == p);
            }
            lemma_recent(tail as int, capacity, tail as int);
            assert(self.head + (self@.live.len() - 1) == tail);
            assert(self@.live =~= live.push(added));
            assert(live.push(added).drop_last() =~= live);
        }
        removed
    }

    /// Takes the first of several messages, and tells its slot.
    pub fn pop_front(&mut self) -> (r: Slot)
        requires
            old(self).wf(),
            old(self)@.live.len() > 1,
        ensures
            final(self).wf(),
            final(self)@.capacity == old(self)@.capacity,
            final(self)@.tail == old(self)@.tail,
            final(self)@.live == old(self)@.live.skip(1),
            r == old(self)@.live[0].slot,
    {
        let ghost before = *self;
        let ghost capacity = self.buffer@.len() as int;
        let idx: usize = self.get_idx(self.head);
        proof {
            self.lemma_live(self.head as int);
            lemma_bytes_first(self@.live);
        }
        let slot: Slot = self.buffer[idx].slot;
        let pos: u64 = self.buffer[idx].pos;
        let gone: usize = match &self.buffer[idx].data {
            Some((_, message)) => message.len(),
            None => 0,
        };
        self.bytes_total = self.bytes_total - gone;
        self.head = self.head + 1;
        self.buffer.set(idx, Item { pos, slot, data: None });
        proof {
            assert forall|i: int| 0 <= i < capacity implies (#[trigger] self.buffer@[i]).pos
                == last_pos(self.tail as int, capacity, i) && (self.buffer@[i].data is Some
                <==> self.head <= self.buffer@[i].pos) by {
                lemma_last_pos(self.tail as int, capacity, i);
                if i != idx {
                    assert(self.buffer@[i] == before.buffer@[i]);
                } else {
                    assert(before.buffer@[i].pos == before.head);
                }
            }
            let live = before@.live.skip(1);
            assert forall|j: int| 0 <= j < live.len() implies #[trigger] self@.live[j]
                == live[j] by {
                let p = self.head + j;
                lemma_recent(self.tail as int, capacity, p);
                assert(p % capacity != idx);
                assert(self.buffer@[p % capacity] == before.buffer@[p % capacity]);
                assert(before.head + (j + 1) == p);
            }
            assert(self@.live =~= live);
        }
        slot
    }

    /// What is at the position.
    pub fn get(&self, pos: u64) -> (r: At)
        requires
            self.wf(),
        ensures
            match r {
                At::Message(kind, data) => {
                    &&& self@.holds(pos as int)
                    &&& self@.at(pos as int).kind == kind
                    &&& self@.at(pos as int).data == data@
                },
                At::Ahead => self@.ahead(pos as int) && !self@.holds(pos as int),
                At::Behind => self@.written(pos as int) > pos && !self@.holds(pos as int),
                At::Gone => self@.written(pos as int) == pos && !self@.holds(pos as int),
            },
    {
        let idx: usize = self.get_idx(pos);
        proof {
            lemma_last_pos(self.tail as int, self.buffer@.len() as int, idx as int);
            if self@.holds(pos as int) {
                self.lemma_live(pos as int);
            }
        }
        let item = &self.buffer[idx];
        if item.pos != pos {
            if item.pos < pos {
                At::Ahead
            } else {
                At::Behind
            }
        } else {
            match &item.data {
                Some((kind, data)) => At::Message(*kind, collections::share(data)),
                None => At::Gone,
            }
        }
    }
}

/// The smallest power of two that is no less than `n`.
fn next_power_of_two(n: usize) -> (r: (usize, Ghost<nat>))
    requires
        n <= usize::MAX / 2 + 1,
    ensures
        r.1@ < 64,
        r.0 == pow2(r.1@),
        1 <= r.0,
        n <= r.0,
        r.0 > 1 ==> r.0 < 2 * n,
        r.0 < u64::MAX,
{
    let mut c: usize = 1;
    let ghost mut k: nat = 0;
    proof {
        vstd::arithmetic::power2::lemma2_to64();
    }
    while c < n
        invariant
            n <= usize::MAX / 2 + 1,
            1 <= c,
            k < 64,
            c == pow2(k),
            c > 1 ==> c < 2 * n,
        decreases 64 - k,
    {
        proof {
            vstd::arithmetic::power2::lemma_pow2_unfold(k + 1);
            if k == 63 {
                vstd::arithmetic::power2::lemma2_to64_rest();
                assert(false);
            }
        }
        c = c * 2;
        proof {
            k = k + 1;
        }
    }
    proof {
        vstd::bits::lemma_u64_pow2_no_overflow(k);
    }
    (c, Ghost(k))
}

} // verus!
