//! A channel from a validator to many receivers: each message is kept until newer ones need its
//! place, and each receiver reads at its own pace.
use std::sync::Arc;

use vstd::prelude::*;

use crate::codec::Timestamp;
use crate::config::ConfigChannel;
use crate::protobuf::{GeyserSlotStatus, ProtobufEncoder, ProtobufMessage};
use crate::pubkey::Slot;
use crate::ring;
use crate::ring::{At, PluginNotification, Ring, RingView, Stored};
use crate::slots;
use crate::slots::{SlotInfo, SlotTable};

verus! {

// ---------------------------------------------------------------------------------------------
// What a channel holds
// ---------------------------------------------------------------------------------------------

/// What a message says of its slot.
#[derive(Debug, Clone, Copy, PartialEq, Eq, Structural)]
pub struct SlotUpdate {
    pub parent: Option<Slot>,
    pub confirmed: bool,
    pub finalized: bool,
}

/// A message on its way into the channel.
pub ghost struct Incoming {
    pub kind: PluginNotification,
    /// The slot that it is about, if it is about one.
    pub slot: Option<Slot>,
    /// What it says of the slot, if that is what it is for.
    pub update: Option<SlotUpdate>,
    pub data: Seq<u8>,
}

/// The messages of a channel, and what is known of their slots.
#[derive(Debug)]
pub struct Sender {
    ring: Ring,
    slots: SlotTable,
    bytes_max: usize,
    closed: bool,
}

/// What a channel holds.
pub ghost struct ChannelView {
    pub ring: RingView,
    pub slots: Map<Slot, SlotInfo>,
    pub bytes_max: nat,
    pub closed: bool,
}

impl View for Sender {
    type V = ChannelView;

    closed spec fn view(&self) -> ChannelView {
        ChannelView {
            ring: self.ring@,
            slots: self.slots@,
            bytes_max: self.bytes_max as nat,
            closed: self.closed,
        }
    }
}

/// Whether each slot that is known has its first message in the ring.
pub open spec fn anchored(slots: Map<Slot, SlotInfo>, ring: RingView) -> bool {
    forall|k: Slot|
        #[trigger] slots.contains_key(k) ==> ring.holds(slots[k].head as int) && ring.at(
            slots[k].head as int,
        ).slot == k
}

/// Whether the data fits: less than the limit is kept, or a single message.
pub open spec fn fits(live: Seq<Stored>, bytes_max: nat) -> bool {
    live.len() <= 1 || ring::bytes_of(live) < bytes_max
}

/// What is known of a slot once the message at `pos` is there.
pub open spec fn noted(
    slots: Map<Slot, SlotInfo>,
    slot: Option<Slot>,
    update: Option<SlotUpdate>,
    pos: u64,
) -> Map<Slot, SlotInfo> {
    match slot {
        None => slots,
        Some(k) => {
            let info = if slots.contains_key(k) {
                slots[k]
            } else {
                SlotInfo { head: pos, parent_slot: None, confirmed: false, finalized: false }
            };
            slots.insert(
                k,
                match update {
                    None => info,
                    Some(u) => SlotInfo {
                        parent_slot: if u.parent is Some {
                            u.parent
                        } else {
                            info.parent_slot
                        },
                        confirmed: info.confirmed || u.confirmed,
                        finalized: info.finalized || u.finalized,
                        ..info
                    },
                },
            )
        },
    }
}

/// The messages without the first ones that are too much: while the limit is reached, the first one
/// goes, but never the last.
pub open spec fn trimmed(live: Seq<Stored>, bytes_max: nat) -> Seq<Stored>
    decreases live.len(),
{
    if ring::bytes_of(live) >= bytes_max && live.len() > 1 {
        trimmed(live.skip(1), bytes_max)
    } else {
        live
    }
}

/// The highest slot of the messages.
pub open spec fn highest(items: Seq<Stored>) -> Slot
    decreases items.len(),
{
    if items.len() == 0 {
        0
    } else {
        let before = highest(items.drop_last());
        if before >= items.last().slot {
            before
        } else {
            items.last().slot
        }
    }
}

/// The slot that the message is kept for: one that is about none is kept for the last slot known.
pub open spec fn slot_for(slots: Map<Slot, SlotInfo>, slot: Option<Slot>) -> Slot {
    match slot {
        Some(k) => k,
        None => slots::last_slot(slots),
    }
}

/// The messages once one more is there.
pub open spec fn extended(v: ChannelView, m: Incoming) -> Seq<Stored> {
    let added = Stored { kind: m.kind, slot: slot_for(v.slots, m.slot), data: m.data };
    if v.ring.live.len() == v.ring.capacity {
        v.ring.live.skip(1).push(added)
    } else {
        v.ring.live.push(added)
    }
}

/// The messages that have to go for one more.
pub open spec fn removed(v: ChannelView, m: Incoming) -> Seq<Stored> {
    let kept = trimmed(extended(v, m), v.bytes_max);
    let all = v.ring.live.push(
        Stored { kind: m.kind, slot: slot_for(v.slots, m.slot), data: m.data },
    );
    all.take(all.len() - kept.len())
}

/// The channel once one more message is there. Where messages had to go, the slots up to the highest
/// of theirs are forgotten: their messages are no longer complete.
pub open spec fn pushed(v: ChannelView, m: Incoming) -> ChannelView {
    let tail = v.ring.tail + 1;
    let known = noted(v.slots, m.slot, m.update, tail as u64);
    ChannelView {
        ring: RingView { live: trimmed(extended(v, m), v.bytes_max), tail, ..v.ring },
        slots: if removed(v, m).len() == 0 {
            known
        } else {
            slots::beyond(known, highest(removed(v, m)))
        },
        ..v
    }
}

/// The channel once the messages are there.
pub open spec fn pushed_each(v: ChannelView, messages: Seq<Incoming>) -> ChannelView
    decreases messages.len(),
{
    if messages.len() == 0 {
        v
    } else {
        pushed(pushed_each(v, messages.drop_last()), messages.last())
    }
}

// ---------------------------------------------------------------------------------------------
// What holds of pushes
// ---------------------------------------------------------------------------------------------

/// What is left after trimming is the end of what was there, and it fits.
proof fn lemma_trimmed(live: Seq<Stored>, bytes_max: nat)
    ensures
        ({
            let kept = trimmed(live, bytes_max);
            &&& kept.len() <= live.len()
            &&& live.len() > 0 ==> kept.len() > 0
            &&& kept == live.skip(live.len() - kept.len())
            &&& fits(kept, bytes_max)
        }),
    decreases live.len(),
{
    if ring::bytes_of(live) >= bytes_max && live.len() > 1 {
        lemma_trimmed(live.skip(1), bytes_max);
        let kept = trimmed(live.skip(1), bytes_max);
        assert(live.skip(1).skip(live.len() - 1 - kept.len()) =~= live.skip(
            live.len() - kept.len(),
        ));
    } else {
        assert(live.skip(0) =~= live);
    }
}

/// What trimming leaves out could not have stayed.
proof fn lemma_trimmed_longest(live: Seq<Stored>, bytes_max: nat, i: int)
    requires
        0 <= i,
        live.len() - i > trimmed(live, bytes_max).len(),
    ensures
        live.len() - i > 1,
        ring::bytes_of(live.skip(i)) >= bytes_max,
    decreases live.len(),
{
    lemma_trimmed(live, bytes_max);
    if i == 0 {
        assert(live.skip(0) =~= live);
    } else {
        lemma_trimmed_longest(live.skip(1), bytes_max, i - 1);
        assert(live.skip(1).skip(i - 1) =~= live.skip(i));
    }
}

/// The highest slot is no lower than that of any message.
proof fn lemma_highest(items: Seq<Stored>, i: int)
    requires
        0 <= i < items.len(),
    ensures
        items[i].slot <= highest(items),
    decreases items.len(),
{
    if i < items.len() - 1 {
        lemma_highest(items.drop_last(), i);
    }
}

impl ChannelView {
    /// Whether the channel is in order.
    pub open spec fn valid(self) -> bool {
        &&& anchored(self.slots, self.ring)
        &&& fits(self.ring.live, self.bytes_max)
        &&& self.ring.live.len() <= self.ring.capacity
    }
}

/// The slots that are known after a push have their first message in the ring, the data fits, and so
/// do the messages.
pub proof fn law_push(v: ChannelView, m: Incoming)
    requires
        v.valid(),
        v.ring.capacity > 0,
        v.ring.live.len() <= v.ring.tail < u64::MAX,
    ensures
        pushed(v, m).valid(),
        pushed(v, m).ring.live.len() > 0,
        pushed(v, m).ring.live.last().data == m.data,
{
    let w = pushed(v, m);
    let added = Stored { kind: m.kind, slot: slot_for(v.slots, m.slot), data: m.data };
    let all = v.ring.live.push(added);
    let live = extended(v, m);
    lemma_trimmed(live, v.bytes_max);
    let kept = trimmed(live, v.bytes_max);
    let gone = all.len() - kept.len();
    assert(kept =~= all.skip(gone));
    let known = noted(v.slots, m.slot, m.update, (v.ring.tail + 1) as u64);
    assert forall|k: Slot| #[trigger] w.slots.contains_key(k) implies w.ring.holds(
        w.slots[k].head as int,
    ) && w.ring.at(w.slots[k].head as int).slot == k by {
        assert(known.contains_key(k));
        let head = known[k].head as int;
        // the place of the first message of the slot among all
        let i = head - v.ring.head();
        if v.slots.contains_key(k) {
            assert(v.ring.holds(v.slots[k].head as int));
            assert(v.ring.at(v.slots[k].head as int).slot == k);
            assert(all[i] == v.ring.live[i]);
        } else {
            assert(i == all.len() - 1);
        }
        assert(all[i].slot == k);
        if i < gone {
            assert(removed(v, m)[i] == all[i]);
            lemma_highest(removed(v, m), i);
            assert(false);
        }
        assert(kept[i - gone] == all[i]);
    }
}

/// All messages once one more is there, those that have to go for it as well.
pub open spec fn offered(v: ChannelView, m: Incoming) -> Seq<Stored> {
    v.ring.live.push(Stored { kind: m.kind, slot: slot_for(v.slots, m.slot), data: m.data })
}

/// Whether so many messages with so much data may be kept: no more than there is room for, and less
/// data than the limit, unless it is a single message.
pub open spec fn within_limits(kept: Seq<Stored>, v: ChannelView) -> bool {
    &&& kept.len() <= v.ring.capacity
    &&& ring::bytes_of(kept) < v.bytes_max || kept.len() == 1
}

/// A push keeps the last messages, and as many of them as both limits allow.
pub proof fn law_push_keeps_most(v: ChannelView, m: Incoming)
    requires
        v.valid(),
        v.ring.capacity > 0,
    ensures
        ({
            let all = offered(v, m);
            let kept = pushed(v, m).ring.live;
            &&& 0 < kept.len() <= all.len()
            &&& kept == all.skip(all.len() - kept.len())
            &&& within_limits(kept, v)
            &&& forall|i: int|
                0 <= i < all.len() && within_limits(#[trigger] all.skip(i), v) ==> all.len() - i
                    <= kept.len()
        }),
{
    let all = offered(v, m);
    let live = extended(v, m);
    let kept = trimmed(live, v.bytes_max);
    lemma_trimmed(live, v.bytes_max);
    let first = all.len() - live.len();
    assert(live =~= all.skip(first));
    assert(kept =~= all.skip(all.len() - kept.len()));
    assert forall|i: int|
        0 <= i < all.len() && within_limits(#[trigger] all.skip(i), v) implies all.len() - i
        <= kept.len() by {
        if all.len() - i > kept.len() {
            assert(i >= first);
            lemma_trimmed_longest(live, v.bytes_max, i - first);
            assert(live.skip(i - first) =~= all.skip(i));
        }
    }
}

/// Where a push makes messages go, no slot up to the highest of theirs can be replayed.
pub proof fn law_evicted_slots(v: ChannelView, m: Incoming, slot: Slot)
    requires
        removed(v, m).len() > 0,
        exists|i: int| 0 <= i < removed(v, m).len() && slot <= (#[trigger] removed(v, m)[i]).slot,
    ensures
        !pushed(v, m).slots.contains_key(slot),
{
    let i = choose|i: int|
        0 <= i < removed(v, m).len() && slot <= (#[trigger] removed(v, m)[i]).slot;
    lemma_highest(removed(v, m), i);
}

/// What pushes leave as it is.
proof fn lemma_pushed_each(v: ChannelView, messages: Seq<Incoming>)
    requires
        v.valid(),
        v.ring.capacity > 0,
        v.ring.live.len() <= v.ring.tail,
        v.ring.tail + messages.len() <= u64::MAX,
    ensures
        ({
            let w = pushed_each(v, messages);
            &&& w.valid()
            &&& w.ring.capacity == v.ring.capacity
            &&& w.bytes_max == v.bytes_max
            &&& w.ring.tail == v.ring.tail + messages.len()
            &&& w.ring.live.len() <= w.ring.tail
        }),
    decreases messages.len(),
{
    if messages.len() > 0 {
        lemma_pushed_each(v, messages.drop_last());
        law_push(pushed_each(v, messages.drop_last()), messages.last());
        lemma_trimmed(
            extended(pushed_each(v, messages.drop_last()), messages.last()),
            v.bytes_max,
        );
    }
}

/// Whether the message is the one that was pushed: one that is about no slot is kept for some slot.
pub open spec fn is_stored(m: Incoming, stored: Stored) -> bool {
    &&& stored.kind == m.kind
    &&& stored.data == m.data
    &&& m.slot matches Some(slot) ==> stored.slot == slot
}

/// Each position that holds a message holds the one that was pushed for it.
pub proof fn law_history(v: ChannelView, messages: Seq<Incoming>, pos: int)
    requires
        v.valid(),
        v.ring.capacity > 0,
        v.ring.live.len() <= v.ring.tail,
        v.ring.tail + messages.len() <= u64::MAX,
        pushed_each(v, messages).ring.holds(pos),
    ensures
        pos <= v.ring.tail ==> v.ring.holds(pos) && pushed_each(v, messages).ring.at(pos)
            == v.ring.at(pos),
        pos > v.ring.tail ==> is_stored(
            messages[pos - v.ring.tail - 1],
            pushed_each(v, messages).ring.at(pos),
        ),
    decreases messages.len(),
{
    if messages.len() > 0 {
        let before = pushed_each(v, messages.drop_last());
        lemma_pushed_each(v, messages.drop_last());
        lemma_pushed_each(v, messages);
        if pos <= before.ring.tail {
            law_positions(before, messages.last(), pos);
            law_history(v, messages.drop_last(), pos);
        } else {
            law_push(before, messages.last());
            lemma_trimmed(extended(before, messages.last()), before.bytes_max);
            let w = pushed_each(v, messages);
            assert(w.ring.at(pos) == w.ring.live.last());
            assert(extended(before, messages.last()).last() == w.ring.live.last());
        }
    }
}

/// Where the first message of a slot was there before the pushes, so was what is known of the slot.
proof fn lemma_known_before(v: ChannelView, messages: Seq<Incoming>, slot: Slot)
    requires
        v.valid(),
        v.ring.capacity > 0,
        v.ring.live.len() <= v.ring.tail,
        v.ring.tail + messages.len() <= u64::MAX,
        pushed_each(v, messages).slots.contains_key(slot),
        pushed_each(v, messages).slots[slot].head <= v.ring.tail,
    ensures
        v.slots.contains_key(slot),
        v.slots[slot].head == pushed_each(v, messages).slots[slot].head,
    decreases messages.len(),
{
    if messages.len() > 0 {
        lemma_pushed_each(v, messages.drop_last());
        lemma_known_before(v, messages.drop_last(), slot);
    }
}

/// Each slot that can be replayed is whole: every message that was pushed since the slot became known
/// is still there, at the position that it was pushed for.
pub proof fn law_replay_whole(v: ChannelView, messages: Seq<Incoming>, slot: Slot, pos: int)
    requires
        v.valid(),
        v.ring.capacity > 0,
        v.ring.live.len() <= v.ring.tail,
        v.ring.tail + messages.len() <= u64::MAX,
        pushed_each(v, messages).slots.contains_key(slot),
        pushed_each(v, messages).slots[slot].head <= pos <= v.ring.tail + messages.len(),
    ensures
        ({
            let w = pushed_each(v, messages);
            &&& w.ring.at(w.slots[slot].head as int).slot == slot
            &&& w.slots[slot].head <= v.ring.tail ==> v.slots.contains_key(slot)
                && v.slots[slot].head == w.slots[slot].head
            &&& w.ring.holds(pos)
            &&& if pos <= v.ring.tail {
                v.ring.holds(pos) && w.ring.at(pos) == v.ring.at(pos)
            } else {
                is_stored(messages[pos - v.ring.tail - 1], w.ring.at(pos))
            }
        }),
{
    let w = pushed_each(v, messages);
    lemma_pushed_each(v, messages);
    assert(w.ring.holds(w.slots[slot].head as int));
    law_history(v, messages, pos);
    if w.slots[slot].head <= v.ring.tail {
        lemma_known_before(v, messages, slot);
    }
}

// ---------------------------------------------------------------------------------------------
// Sending
// ---------------------------------------------------------------------------------------------

impl Sender {
    /// Whether the channel is in order.
    pub closed spec fn wf(&self) -> bool {
        &&& self.ring.wf()
        &&& self@.valid()
    }

    /// A channel without messages.
    pub fn new(config: ConfigChannel) -> (r: Self)
        requires
            config.max_messages <= usize::MAX / 2 + 1,
        ensures
            r.wf(),
            r@.ring.live == Seq::<Stored>::empty(),
            r@.ring.tail == r@.ring.capacity,
            config.max_messages <= r@.ring.capacity,
            exists|k: nat| r@.ring.capacity == #[trigger] vstd::arithmetic::power2::pow2(k),
            r@.ring.capacity > 1 ==> r@.ring.capacity < 2 * config.max_messages,
            r@.slots == Map::<Slot, SlotInfo>::empty(),
            r@.bytes_max == config.max_bytes,
            !r@.closed,
    {
        Sender {
            ring: Ring::new(config.max_messages),
            slots: SlotTable::new(),
            bytes_max: config.max_bytes,
            closed: false,
        }
    }

    /// Keeps what a message says of its slot, and tells the slot that the message is kept for.
    fn note_slot(&mut self, slot: Option<Slot>, update: Option<SlotUpdate>, pos: u64) -> (r: Slot)
        ensures
            final(self).ring == old(self).ring,
            final(self).bytes_max == old(self).bytes_max,
            final(self).closed == old(self).closed,
            final(self).slots@ == noted(old(self).slots@, slot, update, pos),
            r == slot_for(old(self).slots@, slot),
    {
        match slot {
            Some(k) => {
                let mut info = match self.slots.get(k) {
                    Some(info) => info,
                    None => SlotInfo {
                        head: pos,
                        parent_slot: None,
                        confirmed: false,
                        finalized: false,
                    },
                };
                if let Some(update) = update {
                    if update.parent.is_some() {
                        info.parent_slot = update.parent;
                    }
                    if update.confirmed {
                        info.confirmed = true;
                    }
                    if update.finalized {
                        info.finalized = true;
                    }
                }
                self.slots.set(k, info);
                k
            },
            None => {
                let last = self.slots.last();
                proof {
                    slots::lemma_last_slot(self.slots@, last);
                }
                match last {
                    Some(k) => k,
                    None => 0,
                }
            },
        }
    }

    /// Puts a message into the channel.
    fn push_msg(
        &mut self,
        kind: PluginNotification,
        slot: Option<Slot>,
        update: Option<SlotUpdate>,
        data: Vec<u8>,
    )
        requires
            old(self).wf(),
            old(self)@.ring.tail < u64::MAX,
            ring::bytes_of(old(self)@.ring.live) + data@.len() <= usize::MAX,
        ensures
            final(self).wf(),
            final(self)@ == pushed(old(self)@, Incoming { kind, slot, update, data: data@ }),
    {
        let ghost before = self@;
        let ghost m = Incoming { kind, slot, update, data: data@ };
        let ghost added = Stored { kind, slot: slot_for(before.slots, slot), data: data@ };
        let ghost all = before.ring.live.push(added);
        proof {
            self.ring.lemma_sizes();
            law_push(before, m);
        }
        let tail: u64 = self.ring.tail() + 1;
        let k: Slot = self.note_slot(slot, update, tail);
        let ghost known = self.slots@;
        let mut removed_max: Option<Slot> = self.ring.push(kind, k, data);
        let ghost mut gone: int = if removed_max is Some {
            1
        } else {
            0
        };
        proof {
            if removed_max is Some {
                assert(self.ring@.live =~= all.skip(1));
                assert(all.take(1).drop_last() =~= Seq::<Stored>::empty());
                assert(highest(all.take(1).drop_last()) == 0);
                assert(all.take(1).last() == before.ring.live[0]);
            } else {
                assert(self.ring@.live =~= all.skip(0));
            }
        }
        while self.ring.bytes_total() >= self.bytes_max && self.ring.len() > 1
            invariant
                self.ring.wf(),
                self.ring@.tail == before.ring.tail + 1,
                self.ring@.capacity == before.ring.capacity,
                self.slots@ == known,
                self.bytes_max == before.bytes_max,
                self.closed == before.closed,
                0 <= gone <= all.len(),
                self.ring@.live == all.skip(gone),
                trimmed(self.ring@.live, before.bytes_max) == trimmed(
                    extended(before, m),
                    before.bytes_max,
                ),
                removed_max == if gone == 0 {
                    None::<Slot>
                } else {
                    Some(highest(all.take(gone)))
                },
            decreases self.ring@.live.len(),
        {
            proof {
                assert(all.skip(gone).skip(1) =~= all.skip(gone + 1));
                assert(all.take(gone + 1).drop_last() =~= all.take(gone));
                assert(all.take(gone + 1).last() == self.ring@.live[0]);
                if gone == 0 {
                    assert(all.take(0) =~= Seq::<Stored>::empty());
                    assert(highest(all.take(0)) == 0);
                }
            }
            let slot: Slot = self.ring.pop_front();
            removed_max = Some(
                match removed_max {
                    Some(max) => if slot > max {
                        slot
                    } else {
                        max
                    },
                    None => slot,
                },
            );
            proof {
                gone = gone + 1;
            }
        }
        proof {
            lemma_trimmed(extended(before, m), before.bytes_max);
            assert(self.ring@.live == trimmed(extended(before, m), before.bytes_max));
            assert(all.len() - self.ring@.live.len() == gone);
            assert(removed(before, m) == all.take(gone));
        }
        if let Some(upto) = removed_max {
            self.slots.remove_upto(upto);
        }
        assert(self@ == pushed(before, m));
    }

    /// Closes the channel.
    pub fn close(&mut self)
        requires
            old(self).wf(),
        ensures
            final(self).wf(),
            final(self)@ == (ChannelView { closed: true, ..old(self)@ }),
    {
        self.closed = true;
    }
}

// ---------------------------------------------------------------------------------------------
// Statuses that were missed
// ---------------------------------------------------------------------------------------------

/// What a message tells of.
pub open spec fn kind_of(message: &ProtobufMessage) -> PluginNotification {
    match message {
        ProtobufMessage::Account { .. } => PluginNotification::Account,
        ProtobufMessage::Slot { .. } => PluginNotification::Slot,
        ProtobufMessage::Transaction { .. } => PluginNotification::Transaction,
        ProtobufMessage::Entry { .. } => PluginNotification::Entry,
        ProtobufMessage::BlockMeta { .. } => PluginNotification::BlockMeta,
        ProtobufMessage::DeshredTransaction { .. } => PluginNotification::DeshredTransaction,
        ProtobufMessage::ContactInfo { .. } => PluginNotification::ContactInfo,
        ProtobufMessage::ContactInfoRemoved { .. } => PluginNotification::ContactInfo,
        ProtobufMessage::BlockFooter { .. } => PluginNotification::BlockFooter,
        ProtobufMessage::EntryUpdateParent { .. } => PluginNotification::EntryUpdateParent,
        ProtobufMessage::DeshredUpdateParent { .. } => PluginNotification::DeshredTransaction,
    }
}

impl PluginNotification {
    /// What the message tells of.
    pub fn of(message: &ProtobufMessage) -> (r: Self)
        ensures
            r == kind_of(message),
    {
        match message {
            ProtobufMessage::Account { .. } => PluginNotification::Account,
            ProtobufMessage::Slot { .. } => PluginNotification::Slot,
            ProtobufMessage::Transaction { .. } => PluginNotification::Transaction,
            ProtobufMessage::Entry { .. } => PluginNotification::Entry,
            ProtobufMessage::BlockMeta { .. } => PluginNotification::BlockMeta,
            ProtobufMessage::DeshredTransaction { .. } => PluginNotification::DeshredTransaction,
            ProtobufMessage::ContactInfo { .. } => PluginNotification::ContactInfo,
            ProtobufMessage::ContactInfoRemoved { .. } => PluginNotification::ContactInfo,
            ProtobufMessage::BlockFooter { .. } => PluginNotification::BlockFooter,
            ProtobufMessage::EntryUpdateParent { .. } => PluginNotification::EntryUpdateParent,
            ProtobufMessage::DeshredUpdateParent { .. } => PluginNotification::DeshredTransaction,
        }
    }
}

/// What a message says of its slot.
pub open spec fn slot_update(message: &ProtobufMessage) -> Option<SlotUpdate> {
    match message {
        ProtobufMessage::Slot { parent, status, .. } => Some(
            SlotUpdate {
                parent: *parent,
                confirmed: **status is Confirmed,
                finalized: **status is Rooted,
            },
        ),
        _ => None,
    }
}

/// The message, encoded, on its way into the channel.
pub open spec fn incoming_of(message: &ProtobufMessage, created_at: Timestamp) -> Incoming {
    Incoming {
        kind: kind_of(message),
        slot: message.slot(),
        update: slot_update(message),
        data: message.encoded(created_at),
    }
}

/// Whether the slot was not told to have the status yet, which is one that all slots below one that
/// has it have.
pub open spec fn unsettled(info: SlotInfo, status: &GeyserSlotStatus) -> bool {
    ||| *status is Confirmed && !info.confirmed
    ||| *status is Rooted && !info.finalized
}

/// The parent of the slot, where it is known and was not told to have the status yet.
pub open spec fn missing_parent(
    slots: Map<Slot, SlotInfo>,
    slot: Slot,
    status: &GeyserSlotStatus,
) -> Option<Slot> {
    if slots.contains_key(slot) {
        match slots[slot].parent_slot {
            Some(p) => if slots.contains_key(p) && unsettled(slots[p], status) {
                Some(p)
            } else {
                None
            },
            None => None,
        }
    } else {
        None
    }
}

/// Whether the chain of parents that were not told to have the status ends after at most `n` of
/// them.
pub open spec fn ends(
    slots: Map<Slot, SlotInfo>,
    slot: Slot,
    status: &GeyserSlotStatus,
    n: nat,
) -> bool
    decreases n,
{
    match missing_parent(slots, slot, status) {
        None => true,
        Some(p) => n > 0 && ends(slots, p, status, (n - 1) as nat),
    }
}

/// The chain of parents that were not told to have the status, at most `n` of them, each with its own
/// parent.
pub open spec fn missed_upto(
    slots: Map<Slot, SlotInfo>,
    slot: Slot,
    status: &GeyserSlotStatus,
    n: nat,
) -> Seq<(Slot, Option<Slot>)>
    decreases n,
{
    match missing_parent(slots, slot, status) {
        Some(p) => if n > 0 {
            seq![(p, slots[p].parent_slot)] + missed_upto(slots, p, status, (n - 1) as nat)
        } else {
            Seq::empty()
        },
        None => Seq::empty(),
    }
}

/// The chain of parents that were not told to have the status, each with its own parent.
pub open spec fn missed(slots: Map<Slot, SlotInfo>, slot: Slot, status: &GeyserSlotStatus) -> Seq<
    (Slot, Option<Slot>),
> {
    missed_upto(slots, slot, status, choose|n: nat| ends(slots, slot, status, n))
}

/// Where the chain ends, it does not matter how far one looks.
proof fn lemma_missed(
    slots: Map<Slot, SlotInfo>,
    slot: Slot,
    status: &GeyserSlotStatus,
    n: nat,
    k: nat,
)
    requires
        ends(slots, slot, status, n),
        ends(slots, slot, status, k),
    ensures
        missed_upto(slots, slot, status, n) == missed_upto(slots, slot, status, k),
    decreases n,
{
    if let Some(p) = missing_parent(slots, slot, status) {
        lemma_missed(slots, p, status, (n - 1) as nat, (k - 1) as nat);
    }
}

/// What a message brings into the channel: the statuses that were missed, those of the oldest slots
/// first, and then the message.
pub open spec fn messages_of(
    slots: Map<Slot, SlotInfo>,
    message: &ProtobufMessage,
    created_at: Timestamp,
) -> Seq<Incoming> {
    match message {
        ProtobufMessage::Slot { slot, status, .. } => missed(slots, *slot, *status).map_values(
            |m: (Slot, Option<Slot>)|
                incoming_of(
                    &(ProtobufMessage::Slot { slot: m.0, parent: m.1, status: *status }),
                    created_at,
                ),
        ).reverse().push(incoming_of(message, created_at)),
        _ => seq![incoming_of(message, created_at)],
    }
}

/// Whether the chain of parents that a message leads to ends.
pub open spec fn chain_ends(slots: Map<Slot, SlotInfo>, message: &ProtobufMessage) -> bool {
    match message {
        ProtobufMessage::Slot { slot, status, .. } => exists|n: nat|
            ends(slots, *slot, *status, n),
        _ => true,
    }
}

/// The length of the data of the messages.
pub open spec fn data_of(messages: Seq<Incoming>) -> nat
    decreases messages.len(),
{
    if messages.len() == 0 {
        0
    } else {
        data_of(messages.drop_last()) + messages.last().data.len()
    }
}

/// The data of the first messages is no longer than that of all.
proof fn lemma_data_prefix(messages: Seq<Incoming>, i: int)
    requires
        0 <= i < messages.len(),
    ensures
        data_of(messages.take(i + 1)) == data_of(messages.take(i)) + messages[i].data.len(),
        data_of(messages.take(i + 1)) <= data_of(messages),
    decreases messages.len() - i,
{
    assert(messages.take(i + 1).drop_last() =~= messages.take(i));
    if i + 1 < messages.len() {
        lemma_data_prefix(messages, i + 1);
    } else {
        assert(messages.take(i + 1) =~= messages);
    }
}

/// Trimming does not add data.
proof fn lemma_trimmed_bytes(live: Seq<Stored>, bytes_max: nat)
    ensures
        ring::bytes_of(trimmed(live, bytes_max)) <= ring::bytes_of(live),
    decreases live.len(),
{
    if ring::bytes_of(live) >= bytes_max && live.len() > 1 {
        ring::lemma_bytes_first(live);
        lemma_trimmed_bytes(live.skip(1), bytes_max);
    }
}

/// A push adds no more data than that of the message.
proof fn lemma_pushed_bytes(v: ChannelView, m: Incoming)
    requires
        v.ring.capacity > 0,
    ensures
        ring::bytes_of(pushed(v, m).ring.live) <= ring::bytes_of(v.ring.live) + m.data.len(),
{
    let added = Stored { kind: m.kind, slot: slot_for(v.slots, m.slot), data: m.data };
    lemma_trimmed_bytes(extended(v, m), v.bytes_max);
    if v.ring.live.len() == v.ring.capacity {
        ring::lemma_bytes_first(v.ring.live);
        assert(v.ring.live.skip(1).push(added).drop_last() =~= v.ring.live.skip(1));
    } else {
        assert(v.ring.live.push(added).drop_last() =~= v.ring.live);
    }
}

/// Whether the status is one that all slots below have as well.
fn is_unsettled(info: &SlotInfo, status: &GeyserSlotStatus) -> (r: bool)
    ensures
        r == unsettled(*info, status),
{
    match status {
        GeyserSlotStatus::Confirmed => !info.confirmed,
        GeyserSlotStatus::Rooted => !info.finalized,
        _ => false,
    }
}

impl Sender {
    /// The chain of parents that were not told to have the status, each with its own parent.
    fn missed_statuses(&self, slot: Slot, status: &GeyserSlotStatus) -> (r: Vec<
        (Slot, Option<Slot>),
    >)
        requires
            exists|n: nat| ends(self@.slots, slot, status, n),
        ensures
            r@ == missed(self@.slots, slot, status),
    {
        let ghost first = choose|n: nat| ends(self@.slots, slot, status, n);
        let ghost mut n: nat = first;
        let mut found: Vec<(Slot, Option<Slot>)> = Vec::new();
        let mut current: Slot = slot;
        assert(found@ + missed_upto(self@.slots, slot, status, first) =~= missed_upto(
            self@.slots,
            slot,
            status,
            first,
        ));
        loop
            invariant
                ends(self@.slots, current, status, n),
                found@ + missed_upto(self@.slots, current, status, n) == missed_upto(
                    self@.slots,
                    slot,
                    status,
                    first,
                ),
                first == choose|n: nat| ends(self@.slots, slot, status, n),
            decreases n,
        {
            let parent = match self.slots.get(current) {
                Some(info) => info.parent_slot,
                None => None,
            };
            let next: Option<(Slot, SlotInfo)> = match parent {
                Some(parent) => match self.slots.get(parent) {
                    Some(info) => if is_unsettled(&info, status) {
                        Some((parent, info))
                    } else {
                        None
                    },
                    None => None,
                },
                None => None,
            };
            match next {
                Some((parent, info)) => {
                    assert(missing_parent(self@.slots, current, status) == Some(parent));
                    let ghost before = found@;
                    let ghost rest = missed_upto(self@.slots, parent, status, (n - 1) as nat);
                    found.push((parent, info.parent_slot));
                    assert(before + (seq![(parent, info.parent_slot)] + rest) =~= found@ + rest);
                    current = parent;
                    proof {
                        n = (n - 1) as nat;
                    }
                },
                None => {
                    assert(missing_parent(self@.slots, current, status) is None);
                    assert(found@ + Seq::<(Slot, Option<Slot>)>::empty() =~= found@);
                    return found;
                },
            }
        }
    }

    /// Puts an encoded message into the channel.
    fn push_one(&mut self, message: &ProtobufMessage, encoder: ProtobufEncoder, created_at: Timestamp)
        requires
            old(self).wf(),
            old(self)@.ring.tail < u64::MAX,
            ring::bytes_of(old(self)@.ring.live) + message.encoded(created_at).len() <= usize::MAX,
        ensures
            final(self).wf(),
            final(self)@ == pushed(old(self)@, incoming_of(message, created_at)),
    {
        let data = message.encode_with_timestamp(encoder, created_at);
        let update: Option<SlotUpdate> = match message {
            ProtobufMessage::Slot { parent, status, .. } => Some(
                SlotUpdate {
                    parent: *parent,
                    confirmed: matches!(status, GeyserSlotStatus::Confirmed),
                    finalized: matches!(status, GeyserSlotStatus::Rooted),
                },
            ),
            _ => None,
        };
        self.push_msg(PluginNotification::of(message), message.get_slot(), update, data);
    }

    /// Puts a message into the channel. A slot that is confirmed or final was preceded by slots that
    /// are as well: where that was not told of one of them, it is told first.
    pub fn push(&mut self, message: &ProtobufMessage, encoder: ProtobufEncoder, created_at: Timestamp)
        requires
            old(self).wf(),
            chain_ends(old(self)@.slots, message),
            old(self)@.ring.tail + messages_of(old(self)@.slots, message, created_at).len()
                <= u64::MAX,
            ring::bytes_of(old(self)@.ring.live) + data_of(
                messages_of(old(self)@.slots, message, created_at),
            ) <= usize::MAX,
        ensures
            final(self).wf(),
            final(self)@ == pushed_each(
                old(self)@,
                messages_of(old(self)@.slots, message, created_at),
            ),
    {
        let ghost before = self@;
        let ghost messages = messages_of(before.slots, message, created_at);
        assert(messages.take(0) =~= Seq::<Incoming>::empty());
        let ghost mut done: int = 0;
        proof {
            self.ring.lemma_sizes();
        }
        if let ProtobufMessage::Slot { slot, status, .. } = message {
            let found = self.missed_statuses(*slot, status);
            let mut i: usize = found.len();
            assert(messages.len() == found@.len() + 1);
            while i > 0
                invariant
                    i <= found@.len(),
                    done == found@.len() - i,
                    self.wf(),
                    message matches ProtobufMessage::Slot { slot: k, status: s, .. } && *k == *slot
                        && *s == *status,
                    found@ == missed(before.slots, *slot, status),
                    messages == messages_of(before.slots, message, created_at),
                    self@ == pushed_each(before, messages.take(done)),
                    messages.len() == found@.len() + 1,
                    before.ring.tail + messages.len() <= u64::MAX,
                    ring::bytes_of(before.ring.live) + data_of(messages) <= usize::MAX,
                    self@.ring.tail == before.ring.tail + done,
                    ring::bytes_of(self@.ring.live) <= ring::bytes_of(before.ring.live) + data_of(
                        messages.take(done),
                    ),
                decreases i,
            {
                i = i - 1;
                let (parent, parent_of) = found[i];
                let added = ProtobufMessage::Slot { slot: parent, parent: parent_of, status };
                proof {
                    lemma_data_prefix(messages, done);
                    assert(messages.take(done + 1).drop_last() =~= messages.take(done));
                    assert(messages[done] == incoming_of(&added, created_at));
                    self.ring.lemma_sizes();
                    lemma_pushed_bytes(self@, incoming_of(&added, created_at));
                }
                self.push_one(&added, encoder, created_at);
                proof {
                    done = done + 1;
                }
            }
        }
        proof {
            lemma_data_prefix(messages, done);
            assert(messages.take(done + 1).drop_last() =~= messages.take(done));
            assert(messages.drop_last() =~= messages.take(done));
            assert(messages.last() == incoming_of(message, created_at));
            assert(self@ == pushed_each(before, messages.take(done)));
        }
        self.push_one(message, encoder, created_at);
    }
}

// ---------------------------------------------------------------------------------------------
// Receiving
// ---------------------------------------------------------------------------------------------

/// What a receiver wants of the stream. By default it wants what all Geyser plugins have.
#[derive(Debug, Clone, Copy, PartialEq, Eq, Structural)]
pub struct RichatFilter {
    pub disable_accounts: bool,
    pub disable_transactions: bool,
    pub disable_entries: bool,
    pub enable_deshred_transactions: bool,
    pub enable_contact_info: bool,
    pub enable_block_footers: bool,
    pub enable_entry_update_parents: bool,
}

impl RichatFilter {
    /// Whether a message of the kind is wanted.
    pub open spec fn wants(self, kind: PluginNotification) -> bool {
        match kind {
            PluginNotification::Account => !self.disable_accounts,
            PluginNotification::Transaction => !self.disable_transactions,
            PluginNotification::Entry => !self.disable_entries,
            PluginNotification::DeshredTransaction => self.enable_deshred_transactions,
            PluginNotification::ContactInfo => self.enable_contact_info,
            PluginNotification::BlockFooter => self.enable_block_footers,
            PluginNotification::EntryUpdateParent => self.enable_entry_update_parents,
            PluginNotification::Slot => true,
            PluginNotification::BlockMeta => true,
        }
    }

    /// Whether a message of the kind is wanted.
    pub fn is_wanted(&self, kind: PluginNotification) -> (r: bool)
        ensures
            r == self.wants(kind),
    {
        match kind {
            PluginNotification::Account => !self.disable_accounts,
            PluginNotification::Transaction => !self.disable_transactions,
            PluginNotification::Entry => !self.disable_entries,
            PluginNotification::DeshredTransaction => self.enable_deshred_transactions,
            PluginNotification::ContactInfo => self.enable_contact_info,
            PluginNotification::BlockFooter => self.enable_block_footers,
            PluginNotification::EntryUpdateParent => self.enable_entry_update_parents,
            PluginNotification::Slot => true,
            PluginNotification::BlockMeta => true,
        }
    }
}

/// The filter that changes nothing.
pub open spec fn no_filter() -> RichatFilter {
    RichatFilter {
        disable_accounts: false,
        disable_transactions: false,
        disable_entries: false,
        enable_deshred_transactions: false,
        enable_contact_info: false,
        enable_block_footers: false,
        enable_entry_update_parents: false,
    }
}

impl Default for RichatFilter {
    fn default() -> (r: Self)
        ensures
            r == no_filter(),
    {
        RichatFilter {
            disable_accounts: false,
            disable_transactions: false,
            disable_entries: false,
            enable_deshred_transactions: false,
            enable_contact_info: false,
            enable_block_footers: false,
            enable_entry_update_parents: false,
        }
    }
}

/// Why a subscription fails.
#[derive(Debug, Clone, Copy, PartialEq, Eq, Structural)]
pub enum SubscribeError {
    /// No slot is known yet.
    NotInitialized,
    /// The slot is not known, but others are.
    SlotNotAvailable { first_available: Slot },
}

/// Why nothing can be received any more.
#[derive(Debug, Clone, Copy, PartialEq, Eq, Structural)]
pub enum RecvError {
    /// The message is gone.
    Lagged,
    /// The channel was closed.
    Closed,
}

/// What a receiver gets when it asks.
#[derive(Debug)]
pub enum Polled {
    /// A message.
    Item(Arc<Vec<u8>>),
    /// Nothing yet.
    Pending,
    /// Nothing any more, and why.
    Failed(RecvError),
    /// Nothing any more, as was said before.
    Finished,
}

/// A receiver.
#[derive(Debug)]
pub struct Receiver {
    next: u64,
    finished: bool,
    filter: RichatFilter,
}

/// Where a receiver is, and what it wants.
pub ghost struct ReceiverView {
    pub next: nat,
    pub finished: bool,
    pub filter: RichatFilter,
}

impl View for Receiver {
    type V = ReceiverView;

    closed spec fn view(&self) -> ReceiverView {
        ReceiverView { next: self.next as nat, finished: self.finished, filter: self.filter }
    }
}

/// The first position from `pos` on that does not hold a message that is not wanted.
pub open spec fn next_stop(ring: RingView, filter: RichatFilter, pos: int) -> int
    decreases ring.tail + 1 - pos,
{
    if ring.holds(pos) && !filter.wants(ring.at(pos).kind) {
        next_stop(ring, filter, pos + 1)
    } else {
        pos
    }
}

/// What a receiver gets of the channel, and where it is then: the next message that it wants, without
/// leaving one out.
pub open spec fn received(v: ChannelView, r: ReceiverView) -> (
    Result<Option<Seq<u8>>, RecvError>,
    int,
) {
    let p = next_stop(v.ring, r.filter, r.next as int);
    if v.closed {
        (Err(RecvError::Closed), r.next as int)
    } else if v.ring.holds(p) {
        (Ok(Some(v.ring.at(p).data)), p + 1)
    } else if v.ring.ahead(p) {
        (Ok(None), p)
    } else if v.ring.written(p) == p {
        (Err(RecvError::Lagged), p + 1)
    } else {
        (Err(RecvError::Lagged), p)
    }
}

/// What was received, as bytes.
pub open spec fn received_bytes(r: Result<Option<Arc<Vec<u8>>>, RecvError>) -> Result<
    Option<Seq<u8>>,
    RecvError,
> {
    match r {
        Ok(Some(data)) => Ok(Some(data@)),
        Ok(None) => Ok(None),
        Err(e) => Err(e),
    }
}

/// How a receiver goes from `before` to `after` where it asks for the next message.
pub open spec fn polls(v: ChannelView, before: ReceiverView, after: ReceiverView, r: Polled) -> bool {
    if before.finished {
        r is Finished && after == before
    } else {
        let (outcome, next) = received(v, before);
        &&& after.next == next
        &&& after.filter == before.filter
        &&& after.finished == outcome is Err
        &&& match outcome {
            Ok(Some(data)) => r is Item && r->Item_0@ == data,
            Ok(None) => r is Pending,
            Err(e) => r == Polled::Failed(e),
        }
    }
}

/// How a channel answers who subscribes: from the last message on, or from the first of a slot.
pub open spec fn subscribes(
    v: ChannelView,
    replay_from_slot: Option<Slot>,
    filter: Option<RichatFilter>,
    r: Result<Receiver, SubscribeError>,
) -> bool {
    &&& r matches Ok(receiver) ==> {
        &&& !receiver@.finished
        &&& receiver@.filter == match filter {
            Some(filter) => filter,
            None => no_filter(),
        }
    }
    &&& match replay_from_slot {
        None => r is Ok && r->Ok_0@.next == v.ring.tail,
        Some(slot) => if v.slots.contains_key(slot) {
            r is Ok && r->Ok_0@.next == v.slots[slot].head
        } else if v.slots == Map::<Slot, SlotInfo>::empty() {
            r == Err::<Receiver, SubscribeError>(SubscribeError::NotInitialized)
        } else {
            r matches Err(SubscribeError::SlotNotAvailable { first_available })
                && slots::is_first(v.slots, Some(first_available))
        },
    }
}

impl Sender {
    /// A receiver of the messages from the last one on, or from the first of a slot.
    pub fn subscribe(&self, replay_from_slot: Option<Slot>, filter: Option<RichatFilter>) -> (r:
        Result<Receiver, SubscribeError>)
        requires
            self.wf(),
        ensures
            subscribes(self@, replay_from_slot, filter, r),
            r matches Ok(receiver) ==> {
                &&& !receiver@.finished
                &&& receiver@.filter == match filter {
                    Some(filter) => filter,
                    None => no_filter(),
                }
            },
            match replay_from_slot {
                None => r is Ok && r->Ok_0@.next == self@.ring.tail,
                Some(slot) => if self@.slots.contains_key(slot) {
                    &&& r is Ok
                    &&& r->Ok_0@.next == self@.slots[slot].head
                    &&& self@.ring.holds(r->Ok_0@.next as int)
                    &&& self@.ring.at(r->Ok_0@.next as int).slot == slot
                } else if self@.slots == Map::<Slot, SlotInfo>::empty() {
                    r == Err::<Receiver, SubscribeError>(SubscribeError::NotInitialized)
                } else {
                    r matches Err(SubscribeError::SlotNotAvailable { first_available })
                        && slots::is_first(self@.slots, Some(first_available))
                },
            },
    {
        let next: u64 = match replay_from_slot {
            Some(slot) => match self.slots.get(slot) {
                Some(info) => info.head,
                None => match self.slots.first() {
                    Some(key) => {
                        assert(self.slots@.contains_key(key));
                        return Err(SubscribeError::SlotNotAvailable { first_available: key });
                    },
                    None => return Err(SubscribeError::NotInitialized),
                },
            },
            None => self.ring.tail(),
        };
        let filter = match filter {
            Some(filter) => filter,
            None => RichatFilter::default(),
        };
        Ok(Receiver { next, finished: false, filter })
    }
}

impl Receiver {
    /// The next message that the receiver wants, if it is there.
    pub fn recv_ref(&mut self, channel: &Sender) -> (r: Result<Option<Arc<Vec<u8>>>, RecvError>)
        requires
            channel.wf(),
            channel@.ring.tail < u64::MAX,
        ensures
            received_bytes(r) == received(channel@, old(self)@).0,
            final(self)@.next == received(channel@, old(self)@).1,
            final(self)@.finished == old(self)@.finished,
            final(self)@.filter == old(self)@.filter,
    {
        let ghost first = self.next as int;
        loop
            invariant
                channel.wf(),
                channel@.ring.tail < u64::MAX,
                self.finished == old(self).finished,
                self.filter == old(self).filter,
                first == old(self).next,
                first <= self.next,
                next_stop(channel@.ring, self.filter, self.next as int) == next_stop(
                    channel@.ring,
                    self.filter,
                    first,
                ),
                self.next == first || self.next <= channel@.ring.tail + 1,
                channel@.closed ==> self.next == first,
            decreases channel@.ring.tail + 1 - self.next,
        {
            if channel.closed {
                return Err(RecvError::Closed);
            }
            match channel.ring.get(self.next) {
                At::Ahead => return Ok(None),
                At::Behind => return Err(RecvError::Lagged),
                At::Gone => {
                    proof {
                        channel.ring.lemma_written(self.next as int);
                    }
                    self.next = self.next + 1;
                    return Err(RecvError::Lagged);
                },
                At::Message(kind, data) => {
                    self.next = self.next + 1;
                    if self.filter.is_wanted(kind) {
                        return Ok(Some(data));
                    }
                },
            }
        }
    }

    /// The next message that the receiver wants, where it is there. Once nothing can be received any
    /// more, that is said once.
    pub fn poll_next(&mut self, channel: &Sender) -> (r: Polled)
        requires
            channel.wf(),
            channel@.ring.tail < u64::MAX,
        ensures
            polls(channel@, old(self)@, final(self)@, r),
            if old(self)@.finished {
                r is Finished && final(self)@ == old(self)@
            } else {
                let (outcome, next) = received(channel@, old(self)@);
                &&& final(self)@.next == next
                &&& final(self)@.filter == old(self)@.filter
                &&& final(self)@.finished == outcome is Err
                &&& match outcome {
                    Ok(Some(data)) => r is Item && r->Item_0@ == data,
                    Ok(None) => r is Pending,
                    Err(e) => r == Polled::Failed(e),
                }
            },
    {
        if self.finished {
            return Polled::Finished;
        }
        match self.recv_ref(channel) {
            Ok(Some(data)) => Polled::Item(data),
            Ok(None) => Polled::Pending,
            Err(error) => {
                self.finished = true;
                Polled::Failed(error)
            },
        }
    }
}

// ---------------------------------------------------------------------------------------------
// What holds of channels
// ---------------------------------------------------------------------------------------------

/// A receiver that is up to date gets the next message that is pushed, where it wants it.
pub proof fn law_delivery(v: ChannelView, m: Incoming, r: ReceiverView)
    requires
        v.valid(),
        !v.closed,
        v.ring.capacity > 0,
        v.ring.live.len() <= v.ring.tail < u64::MAX,
        r.next == v.ring.tail + 1,
        r.filter.wants(m.kind),
    ensures
        received(pushed(v, m), r) == (
            Ok::<Option<Seq<u8>>, RecvError>(Some(m.data)),
            (r.next + 1) as int,
        ),
{
    law_push(v, m);
    lemma_trimmed(extended(v, m), v.bytes_max);
    let w = pushed(v, m);
    assert(w.ring.at(r.next as int) == w.ring.live.last());
}

/// Whether there is a message at the position that is not wanted.
pub open spec fn unwanted(ring: RingView, filter: RichatFilter, pos: int) -> bool {
    ring.holds(pos) && !filter.wants(ring.at(pos).kind)
}

/// What is left out lies before the position that a receiver stops at, and none of it is wanted.
proof fn lemma_next_stop(ring: RingView, filter: RichatFilter, pos: int)
    ensures
        ({
            let p = next_stop(ring, filter, pos);
            &&& pos <= p
            &&& ring.holds(p) ==> filter.wants(ring.at(p).kind)
            &&& forall|q: int| pos <= q < p ==> #[trigger] unwanted(ring, filter, q)
        }),
    decreases ring.tail + 1 - pos,
{
    if unwanted(ring, filter, pos) {
        lemma_next_stop(ring, filter, pos + 1);
    }
}

/// What a receiver gets is the first message from its position on that it wants, and it goes on behind
/// that message. It leaves out nothing that it wants. Where there is none, nothing was written yet for
/// the position that it waits at, and where it lags, there is no message at that position.
pub proof fn law_receive(v: ChannelView, r: ReceiverView)
    requires
        !v.closed,
    ensures
        ({
            let (outcome, next) = received(v, r);
            let p = match outcome {
                Ok(Some(_)) => next - 1,
                _ => next_stop(v.ring, r.filter, r.next as int),
            };
            &&& r.next <= p <= next <= p + 1
            &&& forall|q: int| r.next <= q < p ==> #[trigger] unwanted(v.ring, r.filter, q)
            &&& match outcome {
                Ok(Some(data)) => {
                    &&& v.ring.holds(p)
                    &&& r.filter.wants(v.ring.at(p).kind)
                    &&& data == v.ring.at(p).data
                },
                Ok(None) => !v.ring.holds(p) && v.ring.ahead(p) && next == p,
                Err(e) => !v.ring.holds(p) && !v.ring.ahead(p) && e == RecvError::Lagged,
            }
        }),
{
    lemma_next_stop(v.ring, r.filter, r.next as int);
}

/// A receiver gets the first message from its position on that it wants.
pub proof fn law_receive_first(v: ChannelView, r: ReceiverView, p: int)
    requires
        !v.closed,
        r.next <= p,
        v.ring.holds(p),
        r.filter.wants(v.ring.at(p).kind),
        forall|q: int| r.next <= q < p ==> #[trigger] unwanted(v.ring, r.filter, q),
    ensures
        received(v, r) == (Ok::<Option<Seq<u8>>, RecvError>(Some(v.ring.at(p).data)), p + 1),
{
    lemma_next_stop(v.ring, r.filter, r.next as int);
    let s = next_stop(v.ring, r.filter, r.next as int);
    if s < p {
        assert(unwanted(v.ring, r.filter, s));
    } else if p < s {
        assert(unwanted(v.ring, r.filter, p));
    }
}

/// Whether messages of the kind are part of what all Geyser plugins have.
pub open spec fn is_geyser(kind: PluginNotification) -> bool {
    match kind {
        PluginNotification::Slot => true,
        PluginNotification::Account => true,
        PluginNotification::Transaction => true,
        PluginNotification::Entry => true,
        PluginNotification::BlockMeta => true,
        PluginNotification::DeshredTransaction => false,
        PluginNotification::ContactInfo => false,
        PluginNotification::BlockFooter => false,
        PluginNotification::EntryUpdateParent => false,
    }
}

/// A receiver without a filter of its own gets only messages that all Geyser plugins have, and leaves
/// out none of them.
pub proof fn law_default_filter(v: ChannelView, r: ReceiverView)
    requires
        !v.closed,
        r.filter == no_filter(),
    ensures
        ({
            let (outcome, next) = received(v, r);
            &&& outcome matches Ok(Some(data)) ==> v.ring.holds(next - 1) && is_geyser(
                v.ring.at(next - 1).kind,
            ) && data == v.ring.at(next - 1).data
            &&& forall|q: int|
                #![trigger v.ring.at(q)]
                r.next <= q < next && v.ring.holds(q) && is_geyser(v.ring.at(q).kind) ==> outcome
                    is Ok && outcome->Ok_0 is Some && q == next - 1
        }),
{
    law_receive(v, r);
    let (outcome, next) = received(v, r);
    assert forall|q: int|
        #![trigger v.ring.at(q)]
        r.next <= q < next && v.ring.holds(q) && is_geyser(v.ring.at(q).kind) implies outcome is Ok
        && outcome->Ok_0 is Some && q == next - 1 by {
        assert(!unwanted(v.ring, r.filter, q));
    }
}

/// A channel that was closed stays closed: nothing is received from it any more.
pub proof fn law_closed(v: ChannelView, messages: Seq<Incoming>, r: ReceiverView)
    requires
        v.closed,
    ensures
        pushed_each(v, messages).closed,
        received(pushed_each(v, messages), r).0 == Err::<Option<Seq<u8>>, RecvError>(
            RecvError::Closed,
        ),
    decreases messages.len(),
{
    if messages.len() > 0 {
        law_closed(v, messages.drop_last(), r);
    }
}

/// A push moves the end of the channel by one position, and leaves the messages that stay where they
/// were.
pub proof fn law_positions(v: ChannelView, m: Incoming, pos: int)
    requires
        v.valid(),
        v.ring.capacity > 0,
        v.ring.live.len() <= v.ring.tail < u64::MAX,
        pos <= v.ring.tail,
        pushed(v, m).ring.holds(pos),
    ensures
        pushed(v, m).ring.tail == v.ring.tail + 1,
        v.ring.holds(pos),
        pushed(v, m).ring.at(pos) == v.ring.at(pos),
{
    lemma_trimmed(extended(v, m), v.bytes_max);
}

/// The chain of parents ends where each parent comes before its child.
pub proof fn law_chain_ends(slots: Map<Slot, SlotInfo>, slot: Slot, status: &GeyserSlotStatus)
    requires
        forall|k: Slot|
            #[trigger] slots.contains_key(k) ==> (slots[k].parent_slot matches Some(p) ==> p < k),
    ensures
        ends(slots, slot, status, slot as nat),
    decreases slot,
{
    if let Some(p) = missing_parent(slots, slot, status) {
        law_chain_ends(slots, p, status);
        lemma_ends_later(slots, p, status, p as nat, (slot - 1) as nat);
    }
}

/// A chain that ends ends however far one looks.
proof fn lemma_ends_later(
    slots: Map<Slot, SlotInfo>,
    slot: Slot,
    status: &GeyserSlotStatus,
    n: nat,
    k: nat,
)
    requires
        ends(slots, slot, status, n),
        n <= k,
    ensures
        ends(slots, slot, status, k),
    decreases n,
{
    if let Some(p) = missing_parent(slots, slot, status) {
        lemma_ends_later(slots, p, status, (n - 1) as nat, (k - 1) as nat);
    }
}

} // verus!
