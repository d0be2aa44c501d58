//! What a channel is for: each receiver gets what its filter asks for, and each slot is told as settled as
//! it is.
use vstd::prelude::*;

use crate::channel;
use crate::channel::{
    ChannelView, Incoming, Polled, Receiver, ReceiverView, RecvError, RichatFilter, SlotUpdate,
    SubscribeError,
};
use crate::codec::Timestamp;
use crate::convert;
use crate::geyser::SlotStatus;
use crate::protobuf::{GeyserSlotStatus, ProtobufMessage};
use crate::pubkey::Slot;
use crate::richat::RichatView;
use crate::ring::{PluginNotification, RingView, Stored};
use crate::slots;
use crate::slots::SlotInfo;
use crate::stream::UpdateView;
use crate::told;
use crate::track;

verus! {

// ---------------------------------------------------------------------------------------------
// Receivers
// ---------------------------------------------------------------------------------------------

/// Each flag of a filter decides on its own kind of messages and on no other. Slots and block metadata are
/// always wanted.
pub proof fn law_wants(filter: RichatFilter)
    ensures
        filter.wants(PluginNotification::Account) != filter.disable_accounts,
        filter.wants(PluginNotification::Transaction) != filter.disable_transactions,
        filter.wants(PluginNotification::Entry) != filter.disable_entries,
        filter.wants(PluginNotification::DeshredTransaction) == filter.enable_deshred_transactions,
        filter.wants(PluginNotification::ContactInfo) == filter.enable_contact_info,
        filter.wants(PluginNotification::BlockFooter) == filter.enable_block_footers,
        filter.wants(PluginNotification::EntryUpdateParent) == filter.enable_entry_update_parents,
        filter.wants(PluginNotification::Slot),
        filter.wants(PluginNotification::BlockMeta),
{
}

/// What is received is never of a kind that the filter disables, and of an opt-in kind only where that is
/// enabled.
pub proof fn law_received_kinds(v: ChannelView, r: ReceiverView)
    ensures
        ({
            let (outcome, next) = channel::received(v, r);
            outcome matches Ok(Some(data)) ==> {
                let kind = v.ring.at(next - 1).kind;
                &&& v.ring.holds(next - 1)
                &&& data == v.ring.at(next - 1).data
                &&& r.next < next
                &&& r.filter.disable_accounts ==> kind != PluginNotification::Account
                &&& r.filter.disable_transactions ==> kind != PluginNotification::Transaction
                &&& r.filter.disable_entries ==> kind != PluginNotification::Entry
                &&& kind == PluginNotification::DeshredTransaction
                    ==> r.filter.enable_deshred_transactions
                &&& kind == PluginNotification::ContactInfo ==> r.filter.enable_contact_info
                &&& kind == PluginNotification::BlockFooter ==> r.filter.enable_block_footers
                &&& kind == PluginNotification::EntryUpdateParent
                    ==> r.filter.enable_entry_update_parents
            }
        }),
{
    if !v.closed {
        channel::law_receive(v, r);
    }
}

/// A message that a receiver goes past without getting it is of a kind that its filter disables, or of an
/// opt-in kind that it does not enable.
pub proof fn law_passed_over(v: ChannelView, r: ReceiverView, q: int)
    requires
        !v.closed,
        r.next <= q < channel::received(v, r).1,
        v.ring.holds(q),
        !(channel::received(v, r).0 matches Ok(Some(_)) && q == channel::received(v, r).1 - 1),
    ensures
        ({
            let kind = v.ring.at(q).kind;
            ||| kind == PluginNotification::Account && r.filter.disable_accounts
            ||| kind == PluginNotification::Transaction && r.filter.disable_transactions
            ||| kind == PluginNotification::Entry && r.filter.disable_entries
            ||| kind == PluginNotification::DeshredTransaction
                && !r.filter.enable_deshred_transactions
            ||| kind == PluginNotification::ContactInfo && !r.filter.enable_contact_info
            ||| kind == PluginNotification::BlockFooter && !r.filter.enable_block_footers
            ||| kind == PluginNotification::EntryUpdateParent
                && !r.filter.enable_entry_update_parents
        }),
{
    channel::law_receive(v, r);
    assert(channel::unwanted(v.ring, r.filter, q) || !v.ring.holds(q));
}

/// A message that is at the position of a receiver is what it gets next, unless its filter says otherwise:
/// a disabled kind, or an opt-in kind that is not enabled.
pub proof fn law_received_next(v: ChannelView, r: ReceiverView)
    requires
        !v.closed,
        v.ring.holds(r.next as int),
    ensures
        ({
            let stored = v.ring.at(r.next as int);
            let gets = channel::received(v, r) == (
                Ok::<Option<Seq<u8>>, RecvError>(Some(stored.data)),
                r.next as int + 1,
            );
            match stored.kind {
                PluginNotification::Account => !r.filter.disable_accounts ==> gets,
                PluginNotification::Transaction => !r.filter.disable_transactions ==> gets,
                PluginNotification::Entry => !r.filter.disable_entries ==> gets,
                PluginNotification::DeshredTransaction => r.filter.enable_deshred_transactions
                    ==> gets,
                PluginNotification::ContactInfo => r.filter.enable_contact_info ==> gets,
                PluginNotification::BlockFooter => r.filter.enable_block_footers ==> gets,
                PluginNotification::EntryUpdateParent => r.filter.enable_entry_update_parents
                    ==> gets,
                PluginNotification::Slot => gets,
                PluginNotification::BlockMeta => gets,
            }
        }),
{
    if r.filter.wants(v.ring.at(r.next as int).kind) {
        channel::law_receive_first(v, r, r.next as int);
    }
}

/// A receiver whose filter refuses the message at its position gets what it would get from the position
/// behind it.
pub proof fn law_skips(v: ChannelView, r: ReceiverView)
    requires
        !v.closed,
        v.ring.holds(r.next as int),
        r.filter.disable_accounts && v.ring.at(r.next as int).kind == PluginNotification::Account
            || r.filter.disable_transactions && v.ring.at(r.next as int).kind
            == PluginNotification::Transaction || r.filter.disable_entries && v.ring.at(
            r.next as int,
        ).kind == PluginNotification::Entry || !r.filter.enable_deshred_transactions && v.ring.at(
            r.next as int,
        ).kind == PluginNotification::DeshredTransaction || !r.filter.enable_contact_info
            && v.ring.at(r.next as int).kind == PluginNotification::ContactInfo
            || !r.filter.enable_block_footers && v.ring.at(r.next as int).kind
            == PluginNotification::BlockFooter || !r.filter.enable_entry_update_parents
            && v.ring.at(r.next as int).kind == PluginNotification::EntryUpdateParent,
    ensures
        channel::received(v, r) == channel::received(v, ReceiverView { next: r.next + 1, ..r }),
{
}

/// What a receiver that waits or lags says: it waits where it read all that was pushed, and lags where a
/// message that it did not read is gone.
pub proof fn law_waits(v: ChannelView, r: ReceiverView)
    requires
        !v.closed,
        0 < v.ring.capacity <= v.ring.tail,
        v.ring.live.len() <= v.ring.capacity,
    ensures
        r.next == v.ring.tail + 1 ==> channel::received(v, r) == (
            Ok::<Option<Seq<u8>>, RecvError>(None),
            r.next as int,
        ),
        v.ring.capacity < r.next && v.ring.tail - v.ring.capacity < r.next < v.ring.head()
            ==> channel::received(v, r).0 == Err::<Option<Seq<u8>>, RecvError>(RecvError::Lagged),
{
    let c = v.ring.capacity as int;
    let t = v.ring.tail as int;
    let n = r.next as int;
    if n == t + 1 {
        let i = n % c;
        let q = n / c;
        assert(0 <= i < c && n == q * c + i) by (nonlinear_arith)
            requires
                c > 0,
                i == n % c,
                q == n / c,
        ;
        assert((t - i) % c >= 0) by (nonlinear_arith)
            requires
                c > 0,
        ;
        assert(v.ring.written(n) < n);
    } else if c < n && t - c < n < v.ring.head() {
        let i = n % c;
        let q = n / c;
        assert(0 <= i < c && n == q * c + i) by (nonlinear_arith)
            requires
                c > 0,
                i == n % c,
                q == n / c,
        ;
        vstd::arithmetic::div_mod::lemma_fundamental_div_mod_converse(t - i, c, q, t - n);
        assert(v.ring.written(n) == n);
    }
}

/// A receiver without a filter of its own gets accounts, transactions, entries, slots and block metadata
/// alone, and one that tracks sources gets the accounts and the transactions that it asks for.
pub proof fn law_filters(accounts: bool, transactions: bool)
    ensures
        ({
            let none = channel::no_filter();
            let tracking = track::tracking_filter(accounts, transactions);
            &&& none.wants(PluginNotification::Account)
            &&& none.wants(PluginNotification::Transaction)
            &&& none.wants(PluginNotification::Entry)
            &&& !none.wants(PluginNotification::DeshredTransaction)
            &&& !none.wants(PluginNotification::ContactInfo)
            &&& !none.wants(PluginNotification::BlockFooter)
            &&& !none.wants(PluginNotification::EntryUpdateParent)
            &&& tracking.wants(PluginNotification::Account) == accounts
            &&& tracking.wants(PluginNotification::Transaction) == transactions
            &&& tracking.wants(PluginNotification::Entry)
            &&& !tracking.wants(PluginNotification::DeshredTransaction)
            &&& !tracking.wants(PluginNotification::ContactInfo)
            &&& !tracking.wants(PluginNotification::BlockFooter)
            &&& !tracking.wants(PluginNotification::EntryUpdateParent)
        }),
{
}

// ---------------------------------------------------------------------------------------------
// Messages in the channel
// ---------------------------------------------------------------------------------------------

/// The messages stand at the last positions, in the order in which they came: the last one at the end.
pub proof fn law_places(ring: RingView, i: int)
    requires
        0 <= i < ring.live.len(),
    ensures
        ring.holds(ring.tail - i),
        ring.at(ring.tail - i) == ring.live[ring.live.len() - 1 - i],
        !ring.holds(ring.tail as int + 1),
        !ring.holds(ring.tail - ring.live.len()),
{
}

/// A message comes into the channel with its own kind and bytes, and for its own slot. One that is about no
/// slot comes for the highest slot that is known, or for slot zero.
pub proof fn law_pushed_last(v: ChannelView, m: Incoming)
    requires
        v.valid(),
        v.ring.capacity > 0,
        v.ring.live.len() <= v.ring.tail < u64::MAX,
        v.slots.dom().finite(),
    ensures
        ({
            let w = channel::pushed(v, m);
            let stored = w.ring.at(w.ring.tail as int);
            &&& w.ring.tail == v.ring.tail + 1
            &&& w.ring.holds(w.ring.tail as int)
            &&& stored.kind == m.kind
            &&& stored.data == m.data
            &&& m.slot matches Some(slot) ==> stored.slot == slot
            &&& m.slot is None ==> {
                &&& v.slots.dom().len() == 0 ==> stored.slot == 0
                &&& v.slots.dom().len() > 0 ==> v.slots.contains_key(stored.slot)
                &&& forall|k: Slot| #[trigger] v.slots.contains_key(k) ==> k <= stored.slot
            }
            &&& w.ring.capacity == v.ring.capacity
            &&& w.bytes_max == v.bytes_max
            &&& w.closed == v.closed
        }),
{
    channel::law_push(v, m);
    channel::law_push_keeps_most(v, m);
    let w = channel::pushed(v, m);
    let all = channel::offered(v, m);
    assert(w.ring.live.last() == all.last());
    assert(w.ring.at(w.ring.tail as int) == w.ring.live.last());
    if m.slot is None {
        lemma_last(v.slots);
        if v.slots.dom().len() == 0 {
            assert(v.slots =~= Map::<Slot, SlotInfo>::empty());
        }
    }
}

/// A table of slots that is not empty has a highest slot.
proof fn lemma_last(m: Map<Slot, SlotInfo>)
    requires
        m.dom().finite(),
    ensures
        forall|k: Slot| #[trigger] m.contains_key(k) ==> k <= slots::last_slot(m),
        m.dom().len() > 0 ==> m.contains_key(slots::last_slot(m)),
{
    if m.dom().len() > 0 {
        let k = lemma_highest(m.dom());
        assert(m.contains_key(k));
        assert(slots::is_last(m, Some(k))) by {
            assert forall|j: Slot| #[trigger] m.contains_key(j) implies j <= k by {
                assert(m.dom().contains(j));
            }
        }
        assert(m != Map::<Slot, SlotInfo>::empty());
        assert(slots::is_last(m, Some(slots::last_slot(m))));
    } else {
        assert(m =~= Map::<Slot, SlotInfo>::empty());
    }
}

proof fn lemma_highest(s: Set<Slot>) -> (k: Slot)
    requires
        s.finite(),
        s.len() > 0,
    ensures
        s.contains(k),
        forall|j: Slot| #[trigger] s.contains(j) ==> j <= k,
    decreases s.len(),
{
    let a = s.choose();
    let rest = s.remove(a);
    if rest.len() == 0 {
        assert forall|j: Slot| #[trigger] s.contains(j) implies j <= a by {
            if j != a {
                assert(rest.contains(j));
                assert(rest =~= Set::<Slot>::empty());
            }
        }
        a
    } else {
        let b = lemma_highest(rest);
        if a <= b {
            assert forall|j: Slot| #[trigger] s.contains(j) implies j <= b by {
                assert(j == a || rest.contains(j));
            }
            b
        } else {
            assert forall|j: Slot| #[trigger] s.contains(j) implies j <= a by {
                assert(j == a || rest.contains(j));
            }
            a
        }
    }
}

/// What is known of a slot only grows: its first message stays where it is, a parent stays known, and what
/// was confirmed or final stays so. All that the message says of the slot is known then, and what is known
/// of other slots does not change.
pub proof fn law_noted(
    known: Map<Slot, SlotInfo>,
    slot: Slot,
    update: Option<SlotUpdate>,
    pos: u64,
    other: Slot,
)
    requires
        other != slot,
    ensures
        ({
            let after = channel::noted(known, Some(slot), update, pos);
            let info = after[slot];
            &&& after.contains_key(slot)
            &&& after.contains_key(other) == known.contains_key(other)
            &&& after[other] == known[other]
            &&& info.head == if known.contains_key(slot) {
                known[slot].head
            } else {
                pos
            }
            &&& info.confirmed <==> known.contains_key(slot) && known[slot].confirmed
                || (update matches Some(u) && u.confirmed)
            &&& info.finalized <==> known.contains_key(slot) && known[slot].finalized
                || (update matches Some(u) && u.finalized)
            &&& update is Some && update->Some_0.parent is Some ==> info.parent_slot
                == update->Some_0.parent
            &&& (update is None || update->Some_0.parent is None) && known.contains_key(slot)
                ==> info.parent_slot == known[slot].parent_slot
            &&& (update is None || update->Some_0.parent is None) && !known.contains_key(slot)
                ==> info.parent_slot is None
        }),
        channel::noted(known, None, update, pos) == known,
{
}

/// A slot is forgotten where a message of it or of a later slot had to go, and only then.
pub proof fn law_forgotten(v: ChannelView, m: Incoming, slot: Slot)
    requires
        v.valid(),
        v.ring.capacity > 0,
        v.ring.live.len() <= v.ring.tail < u64::MAX,
        v.slots.contains_key(slot) || m.slot == Some(slot),
    ensures
        ({
            let w = channel::pushed(v, m);
            let gone = v.ring.live.len() + 1 - w.ring.live.len();
            let all = channel::offered(v, m);
            w.slots.contains_key(slot) <==> forall|i: int|
                0 <= i < gone ==> (#[trigger] all[i]).slot < slot
        }),
{
    channel::law_push_keeps_most(v, m);
    let w = channel::pushed(v, m);
    let gone = v.ring.live.len() + 1 - w.ring.live.len();
    let all = channel::offered(v, m);
    let removed = channel::removed(v, m);
    assert(removed =~= all.take(gone));
    if gone == 0 {
        assert(removed.len() == 0);
    } else {
        lemma_highest_slot(removed);
        if w.slots.contains_key(slot) {
            assert forall|i: int| 0 <= i < gone implies (#[trigger] all[i]).slot < slot by {
                assert(removed[i] == all[i]);
            }
        } else {
            let i = choose|i: int|
                0 <= i < removed.len() && (#[trigger] removed[i]).slot == channel::highest(removed);
            assert(all[i] == removed[i]);
        }
    }
}

proof fn lemma_highest_slot(items: Seq<Stored>)
    requires
        items.len() > 0,
    ensures
        exists|i: int|
            0 <= i < items.len() && (#[trigger] items[i]).slot == channel::highest(items),
        forall|i: int| 0 <= i < items.len() ==> (#[trigger] items[i]).slot <= channel::highest(items),
    decreases items.len(),
{
    let n = items.len() - 1;
    let before = items.drop_last();
    if n == 0 {
        assert(items[0].slot == channel::highest(items)) by {
            assert(channel::highest(before) == 0);
        }
    } else {
        lemma_highest_slot(before);
        if channel::highest(before) >= items.last().slot {
            let i = choose|i: int|
                0 <= i < before.len() && (#[trigger] before[i]).slot == channel::highest(before);
            assert(items[i] == before[i]);
        } else {
            assert(items[n].slot == channel::highest(items));
        }
        assert forall|i: int| 0 <= i < items.len() implies (#[trigger] items[i]).slot
            <= channel::highest(items) by {
            if i < n {
                assert(before[i] == items[i]);
            }
        }
    }
}

// ---------------------------------------------------------------------------------------------
// What a validator tells of
// ---------------------------------------------------------------------------------------------

/// What a message is kept as is what it tells of: by the tag of its update. Nodes that left are contact
/// info, and parents that shreds changed go with the transactions before replay.
pub proof fn law_kind(m: &ProtobufMessage)
    ensures
        channel::kind_of(m) == PluginNotification::Account <==> m.tag() == 2,
        channel::kind_of(m) == PluginNotification::Slot <==> m.tag() == 3,
        channel::kind_of(m) == PluginNotification::Transaction <==> m.tag() == 4,
        channel::kind_of(m) == PluginNotification::BlockMeta <==> m.tag() == 7,
        channel::kind_of(m) == PluginNotification::Entry <==> m.tag() == 8,
        channel::kind_of(m) == PluginNotification::DeshredTransaction <==> m.tag() == 100
            || m.tag() == 105,
        channel::kind_of(m) == PluginNotification::ContactInfo <==> m.tag() == 101 || m.tag() == 102,
        channel::kind_of(m) == PluginNotification::BlockFooter <==> m.tag() == 103,
        channel::kind_of(m) == PluginNotification::EntryUpdateParent <==> m.tag() == 104,
{
}

/// The slot that a message is kept for is the one that its update tells of. Contact info tells of none.
pub proof fn law_message_slot(m: &ProtobufMessage)
    ensures
        m.slot() == match convert::told_geyser(m) {
            Some(UpdateView::Account(a)) => Some(a.slot),
            Some(UpdateView::Slot(s)) => Some(s.slot),
            Some(UpdateView::Transaction { slot, .. }) => Some(slot),
            Some(UpdateView::BlockMeta(b)) => Some(b.slot),
            Some(UpdateView::Entry(e)) => Some(e.slot),
            _ => match told::told(m) {
                Some(RichatView::DeshredTransaction(t)) => Some(t.slot),
                Some(RichatView::BlockFooter(f)) => Some(f.slot),
                Some(RichatView::EntryUpdateParent { slot, .. }) => Some(slot),
                Some(RichatView::DeshredUpdateParent { slot, .. }) => Some(slot),
                _ => None,
            },
        },
{
}

/// A message says of its slot what its status says: confirmed where it is, final where it is rooted, and
/// its parent. Only slot messages say anything.
pub proof fn law_slot_update(m: &ProtobufMessage)
    ensures
        channel::slot_update(m) is Some <==> m is Slot,
        m matches ProtobufMessage::Slot { slot, parent, status } ==> {
            let said = channel::slot_update(m)->Some_0;
            &&& said.parent == *parent
            &&& said.confirmed <==> status.in_update() == SlotStatus::SlotConfirmed
            &&& said.finalized <==> status.in_update() == SlotStatus::SlotFinalized
        },
{
}

/// Where a slot is told to be confirmed or final, the same is told of its ancestors that were not told to
/// be so: one after the other, from the parent on, up to the first that was or that is not known.
pub proof fn law_missed(known: Map<Slot, SlotInfo>, slot: Slot, status: &GeyserSlotStatus)
    requires
        exists|n: nat| channel::ends(known, slot, status, n),
    ensures
        ({
            let ms = channel::missed(known, slot, status);
            let last = if ms.len() > 0 {
                ms.last().0
            } else {
                slot
            };
            &&& !(*status is Confirmed) && !(*status is Rooted) ==> ms.len() == 0
            &&& forall|i: int|
                0 <= i < ms.len() ==> {
                    let (s, parent) = #[trigger] ms[i];
                    let child = if i == 0 {
                        slot
                    } else {
                        ms[i - 1].0
                    };
                    &&& known.contains_key(child)
                    &&& known[child].parent_slot == Some(s)
                    &&& known.contains_key(s)
                    &&& parent == known[s].parent_slot
                    &&& *status is Confirmed ==> !known[s].confirmed
                    &&& *status is Rooted ==> !known[s].finalized
                }
            &&& known.contains_key(last) ==> (known[last].parent_slot matches Some(p) ==> (
            known.contains_key(p) ==> {
                &&& *status is Confirmed ==> known[p].confirmed
                &&& *status is Rooted ==> known[p].finalized
            }))
        }),
{
    let n = choose|n: nat| channel::ends(known, slot, status, n);
    lemma_missed_upto(known, slot, status, n);
}

proof fn lemma_missed_upto(
    known: Map<Slot, SlotInfo>,
    slot: Slot,
    status: &GeyserSlotStatus,
    n: nat,
)
    requires
        channel::ends(known, slot, status, n),
    ensures
        ({
            let ms = channel::missed_upto(known, slot, status, n);
            let last = if ms.len() > 0 {
                ms.last().0
            } else {
                slot
            };
            &&& !(*status is Confirmed) && !(*status is Rooted) ==> ms.len() == 0
            &&& forall|i: int|
                0 <= i < ms.len() ==> {
                    let (s, parent) = #[trigger] ms[i];
                    let child = if i == 0 {
                        slot
                    } else {
                        ms[i - 1].0
                    };
                    &&& known.contains_key(child)
                    &&& known[child].parent_slot == Some(s)
                    &&& known.contains_key(s)
                    &&& parent == known[s].parent_slot
                    &&& *status is Confirmed ==> !known[s].confirmed
                    &&& *status is Rooted ==> !known[s].finalized
                }
            &&& known.contains_key(last) ==> (known[last].parent_slot matches Some(p) ==> (
            known.contains_key(p) ==> {
                &&& *status is Confirmed ==> known[p].confirmed
                &&& *status is Rooted ==> known[p].finalized
            }))
        }),
    decreases n,
{
    if let Some(p) = channel::missing_parent(known, slot, status) {
        lemma_missed_upto(known, p, status, (n - 1) as nat);
        let rest = channel::missed_upto(known, p, status, (n - 1) as nat);
        let ms = channel::missed_upto(known, slot, status, n);
        assert(ms[0] == (p, known[p].parent_slot));
        assert forall|i: int| 0 < i < ms.len() implies #[trigger] ms[i] == rest[i - 1] by {}
        if rest.len() > 0 {
            assert(ms.last() == rest.last());
        } else {
            assert(ms.last() == ms[0]);
        }
        assert forall|i: int| 0 <= i < ms.len() implies {
            let (s, parent) = #[trigger] ms[i];
            let child = if i == 0 {
                slot
            } else {
                ms[i - 1].0
            };
            &&& known.contains_key(child)
            &&& known[child].parent_slot == Some(s)
            &&& known.contains_key(s)
            &&& parent == known[s].parent_slot
            &&& *status is Confirmed ==> !known[s].confirmed
            &&& *status is Rooted ==> !known[s].finalized
        } by {
            if i > 0 {
                assert(ms[i] == rest[i - 1]);
                if i > 1 {
                    assert(ms[i - 1] == rest[i - 2]);
                }
            }
        }
    }
}

/// A message that a validator sends comes into the channel last. Before it come the statuses that were
/// missed, the oldest slot first, each as a message of that slot with the same status. Any other message
/// comes alone.
pub proof fn law_messages(
    known: Map<Slot, SlotInfo>,
    message: &ProtobufMessage,
    created_at: Timestamp,
)
    ensures
        ({
            let all = channel::messages_of(known, message, created_at);
            let last = all.last();
            &&& all.len() > 0
            &&& last.kind == channel::kind_of(message)
            &&& last.slot == message.slot()
            &&& last.data == message.encoded(created_at)
            &&& last.update == channel::slot_update(message)
            &&& !(message is Slot) ==> all.len() == 1
            &&& message matches ProtobufMessage::Slot { slot, status, .. } ==> {
                let ms = channel::missed(known, *slot, *status);
                &&& all.len() == ms.len() + 1
                &&& forall|i: int|
                    0 <= i < ms.len() ==> {
                        let told = ProtobufMessage::Slot {
                            slot: ms[i].0,
                            parent: ms[i].1,
                            status: *status,
                        };
                        let m = #[trigger] all[ms.len() - 1 - i];
                        &&& m.kind == PluginNotification::Slot
                        &&& m.slot == Some(ms[i].0)
                        &&& m.data == told.encoded(created_at)
                        &&& m.update == channel::slot_update(&told)
                    }
            }
        }),
{
    if let ProtobufMessage::Slot { slot, status, .. } = message {
        let ms = channel::missed(known, *slot, *status);
        let all = channel::messages_of(known, message, created_at);
        assert forall|i: int| 0 <= i < ms.len() implies {
            let told = ProtobufMessage::Slot { slot: ms[i].0, parent: ms[i].1, status: *status };
            #[trigger] all[ms.len() - 1 - i] == channel::incoming_of(&told, created_at)
        } by {}
    }
}

/// Who subscribes gets what comes from the last message on, or all messages from the first of the slot that
/// is asked for, while that is known. Where it is not, the first slot that is known is told.
pub proof fn law_subscribed(
    v: ChannelView,
    replay_from_slot: Option<Slot>,
    filter: Option<RichatFilter>,
    r: Result<Receiver, SubscribeError>,
)
    requires
        v.valid(),
        channel::subscribes(v, replay_from_slot, filter, r),
    ensures
        match r {
            Ok(receiver) => {
                &&& !receiver@.finished
                &&& filter matches Some(f) ==> receiver@.filter == f
                &&& filter is None ==> {
                    &&& !receiver@.filter.disable_accounts
                    &&& !receiver@.filter.disable_transactions
                    &&& !receiver@.filter.disable_entries
                    &&& !receiver@.filter.enable_deshred_transactions
                    &&& !receiver@.filter.enable_contact_info
                    &&& !receiver@.filter.enable_block_footers
                    &&& !receiver@.filter.enable_entry_update_parents
                }
                &&& match replay_from_slot {
                    None => receiver@.next == v.ring.tail,
                    Some(slot) => {
                        &&& v.slots.contains_key(slot)
                        &&& v.ring.holds(receiver@.next as int)
                        &&& v.ring.at(receiver@.next as int).slot == slot
                        &&& receiver@.next == v.slots[slot].head
                    },
                }
            },
            Err(e) => {
                &&& replay_from_slot matches Some(slot) && !v.slots.contains_key(slot)
                &&& match e {
                    SubscribeError::NotInitialized => forall|k: Slot| !#[trigger] v.slots.contains_key(k),
                    SubscribeError::SlotNotAvailable { first_available } => {
                        &&& v.slots.contains_key(first_available)
                        &&& forall|k: Slot|
                            #[trigger] v.slots.contains_key(k) ==> first_available <= k
                    },
                }
            },
        },
{
    if let Some(slot) = replay_from_slot {
        if v.slots.contains_key(slot) {
            assert(v.ring.holds(v.slots[slot].head as int));
        }
    }
}

/// A receiver that fell behind is told so. It moves on by one position where what was there is gone and
/// nothing took its place yet, and stays where it is otherwise.
pub proof fn law_lagged(v: ChannelView, r: ReceiverView)
    requires
        !v.closed,
    ensures
        ({
            let p = channel::next_stop(v.ring, r.filter, r.next as int);
            channel::received(v, r).0 == Err::<Option<Seq<u8>>, RecvError>(RecvError::Lagged) ==> {
                &&& !v.ring.holds(p)
                &&& v.ring.written(p) >= p
                &&& channel::received(v, r).1 == if v.ring.written(p) == p {
                    p + 1
                } else {
                    p
                }
            }
        }),
        ({
            let p = channel::next_stop(v.ring, r.filter, r.next as int);
            !v.ring.holds(p) && v.ring.written(p) >= p ==> channel::received(v, r).0 == Err::<
                Option<Seq<u8>>,
                RecvError,
            >(RecvError::Lagged)
        }),
{
}

/// A receiver that failed once is finished, and says so from then on. Until it fails it is not, and what it
/// gets is what there is to receive. Its filter never changes.
pub proof fn law_polled(
    v: ChannelView,
    before: ReceiverView,
    after: ReceiverView,
    last: ReceiverView,
    r: Polled,
    again: Polled,
)
    requires
        channel::polls(v, before, after, r),
        channel::polls(v, after, last, again),
    ensures
        after.filter == before.filter,
        before.finished <==> r is Finished,
        r is Failed || r is Finished ==> after.finished && again is Finished && last == after,
        r is Item || r is Pending ==> !after.finished,
        !before.finished && v.closed ==> r == Polled::Failed(RecvError::Closed),
        !before.finished ==> match channel::received(v, before).0 {
            Ok(Some(data)) => r is Item && r->Item_0@ == data,
            Ok(None) => r is Pending && after.next == channel::received(v, before).1,
            Err(e) => r == Polled::Failed(e),
        },
{
}

} // verus!
