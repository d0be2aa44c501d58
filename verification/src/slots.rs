//! What is known of the slots that a channel holds messages of.
use vstd::prelude::*;

use crate::pubkey::Slot;

verus! {

/// What is known of a slot.
#[derive(Debug, Clone, Copy, PartialEq, Eq, Structural)]
pub struct SlotInfo {
    /// The position of its first message.
    pub head: u64,
    pub parent_slot: Option<Slot>,
    pub confirmed: bool,
    pub finalized: bool,
}

/// Slots in their order, and what is known of them.
#[derive(Debug)]
pub struct SlotTable {
    entries: Vec<(Slot, SlotInfo)>,
}

/// The entries as a map.
pub open spec fn table(entries: Seq<(Slot, SlotInfo)>) -> Map<Slot, SlotInfo>
    decreases entries.len(),
{
    if entries.len() == 0 {
        Map::empty()
    } else {
        table(entries.drop_last()).insert(entries.last().0, entries.last().1)
    }
}

/// Whether the slots of the entries grow.
pub open spec fn sorted(entries: Seq<(Slot, SlotInfo)>) -> bool {
    forall|i: int, j: int|
        0 <= i < j < entries.len() ==> (#[trigger] entries[i]).0 < (#[trigger] entries[j]).0
}

/// The slots of the map are those of the entries.
proof fn lemma_table(entries: Seq<(Slot, SlotInfo)>)
    requires
        sorted(entries),
    ensures
        forall|i: int|
            0 <= i < entries.len() ==> table(entries).contains_key((#[trigger] entries[i]).0)
                && table(entries)[entries[i].0] == entries[i].1,
        forall|k: Slot|
            #[trigger] table(entries).contains_key(k) ==> exists|i: int|
                0 <= i < entries.len() && (#[trigger] entries[i]).0 == k,
    decreases entries.len(),
{
    if entries.len() > 0 {
        let rest = entries.drop_last();
        lemma_table(rest);
        assert forall|i: int| 0 <= i < entries.len() implies table(entries).contains_key(
            (#[trigger] entries[i]).0,
        ) && table(entries)[entries[i].0] == entries[i].1 by {
            if i < rest.len() {
                assert(rest[i] == entries[i]);
            }
        }
        assert forall|k: Slot| #[trigger] table(entries).contains_key(k) implies exists|i: int|
            0 <= i < entries.len() && (#[trigger] entries[i]).0 == k by {
            if k == entries.last().0 {
                assert(entries[entries.len() - 1].0 == k);
            } else {
                assert(table(rest).contains_key(k));
                let i = choose|i: int| 0 <= i < rest.len() && (#[trigger] rest[i]).0 == k;
                assert(entries[i].0 == k);
            }
        }
    }
}

/// There are as many slots as entries.
proof fn lemma_table_len(entries: Seq<(Slot, SlotInfo)>)
    requires
        sorted(entries),
    ensures
        table(entries).dom().finite(),
        table(entries).dom().len() == entries.len(),
    decreases entries.len(),
{
    if entries.len() > 0 {
        let rest = entries.drop_last();
        lemma_table_len(rest);
        lemma_table(rest);
        assert(!table(rest).contains_key(entries.last().0));
        assert(table(entries).dom() =~= table(rest).dom().insert(entries.last().0));
    }
}

/// Entries that hold the same as a map are that map.
proof fn lemma_table_is(entries: Seq<(Slot, SlotInfo)>, m: Map<Slot, SlotInfo>)
    requires
        sorted(entries),
        forall|i: int|
            0 <= i < entries.len() ==> m.contains_key((#[trigger] entries[i]).0) && m[entries[i].0]
                == entries[i].1,
        forall|k: Slot|
            #[trigger] m.contains_key(k) ==> exists|i: int|
                0 <= i < entries.len() && (#[trigger] entries[i]).0 == k,
    ensures
        table(entries) == m,
{
    lemma_table(entries);
    assert(table(entries) =~= m);
}

/// An entry that takes the place of another for the same slot.
proof fn lemma_replaced(entries: Seq<(Slot, SlotInfo)>, i: int, info: SlotInfo)
    requires
        sorted(entries),
        0 <= i < entries.len(),
    ensures
        sorted(entries.update(i, (entries[i].0, info))),
        table(entries.update(i, (entries[i].0, info))) == table(entries).insert(
            entries[i].0,
            info,
        ),
{
    let slot = entries[i].0;
    let after = entries.update(i, (slot, info));
    let m = table(entries).insert(slot, info);
    lemma_table(entries);
    assert forall|j: int| 0 <= j < after.len() implies m.contains_key((#[trigger] after[j]).0)
        && m[after[j].0] == after[j].1 by {
        assert(entries[j].0 == after[j].0);
    }
    assert forall|k: Slot| #[trigger] m.contains_key(k) implies exists|j: int|
        0 <= j < after.len() && (#[trigger] after[j]).0 == k by {
        if k == slot {
            assert(after[i].0 == k);
        } else {
            let j = choose|j: int| 0 <= j < entries.len() && (#[trigger] entries[j]).0 == k;
            assert(after[j].0 == k);
        }
    }
    assert forall|a: int, b: int| 0 <= a < b < after.len() implies (#[trigger] after[a]).0 < (
    #[trigger] after[b]).0 by {
        assert(entries[a].0 < entries[b].0);
    }
    lemma_table_is(after, m);
}

/// An entry for a slot that there was none for.
proof fn lemma_inserted(entries: Seq<(Slot, SlotInfo)>, i: int, slot: Slot, info: SlotInfo)
    requires
        sorted(entries),
        0 <= i <= entries.len(),
        forall|j: int| 0 <= j < i ==> (#[trigger] entries[j]).0 < slot,
        forall|j: int| i <= j < entries.len() ==> (#[trigger] entries[j]).0 > slot,
    ensures
        sorted(entries.insert(i, (slot, info))),
        table(entries.insert(i, (slot, info))) == table(entries).insert(slot, info),
{
    let after = entries.insert(i, (slot, info));
    let m = table(entries).insert(slot, info);
    lemma_table(entries);
    assert forall|j: int| 0 <= j < after.len() implies m.contains_key((#[trigger] after[j]).0)
        && m[after[j].0] == after[j].1 by {
        if j < i {
            assert(entries[j] == after[j]);
        } else if j > i {
            assert(entries[j - 1] == after[j]);
        }
    }
    assert forall|k: Slot| #[trigger] m.contains_key(k) implies exists|j: int|
        0 <= j < after.len() && (#[trigger] after[j]).0 == k by {
        if k == slot {
            assert(after[i].0 == k);
        } else {
            let j = choose|j: int| 0 <= j < entries.len() && (#[trigger] entries[j]).0 == k;
            if j < i {
                assert(after[j].0 == k);
            } else {
                assert(after[j + 1].0 == k);
            }
        }
    }
    assert forall|a: int, b: int| 0 <= a < b < after.len() implies (#[trigger] after[a]).0 < (
    #[trigger] after[b]).0 by {
        let x = if a < i {
            a
        } else {
            a - 1
        };
        let y = if b < i {
            b
        } else {
            b - 1
        };
        if a != i && b != i {
            assert(entries[x].0 < entries[y].0);
        } else if a == i {
            assert(entries[y].0 > slot);
        } else {
            assert(entries[x].0 < slot);
        }
    }
    lemma_table_is(after, m);
}

/// The entries without the first ones, those up to a slot.
proof fn lemma_removed(entries: Seq<(Slot, SlotInfo)>, gone: int, upto: Slot)
    requires
        sorted(entries),
        0 <= gone <= entries.len(),
        forall|j: int| 0 <= j < gone ==> (#[trigger] entries[j]).0 <= upto,
        gone < entries.len() ==> entries[gone].0 > upto,
    ensures
        sorted(entries.skip(gone)),
        table(entries.skip(gone)) == beyond(table(entries), upto),
{
    let after = entries.skip(gone);
    let m = beyond(table(entries), upto);
    lemma_table(entries);
    assert forall|a: int, b: int| 0 <= a < b < after.len() implies (#[trigger] after[a]).0 < (
    #[trigger] after[b]).0 by {
        assert(entries[gone + a].0 < entries[gone + b].0);
    }
    assert forall|j: int| 0 <= j < after.len() implies m.contains_key((#[trigger] after[j]).0)
        && m[after[j].0] == after[j].1 by {
        assert(entries[gone + j] == after[j]);
        if j > 0 {
            assert(entries[gone].0 < entries[gone + j].0);
        }
    }
    assert forall|k: Slot| #[trigger] m.contains_key(k) implies exists|j: int|
        0 <= j < after.len() && (#[trigger] after[j]).0 == k by {
        assert(table(entries).contains_key(k));
        let j = choose|j: int| 0 <= j < entries.len() && (#[trigger] entries[j]).0 == k;
        assert(after[j - gone].0 == k);
    }
    lemma_table_is(after, m);
}

impl View for SlotTable {
    type V = Map<Slot, SlotInfo>;

    closed spec fn view(&self) -> Map<Slot, SlotInfo> {
        table(self.entries@)
    }
}

/// Whether `k` is the first slot of the map, if there is one.
pub open spec fn is_first(m: Map<Slot, SlotInfo>, k: Option<Slot>) -> bool {
    match k {
        Some(k) => m.contains_key(k) && forall|j: Slot| #[trigger] m.contains_key(j) ==> k <= j,
        None => m == Map::<Slot, SlotInfo>::empty(),
    }
}

/// Whether `k` is the last slot of the map, if there is one.
pub open spec fn is_last(m: Map<Slot, SlotInfo>, k: Option<Slot>) -> bool {
    match k {
        Some(k) => m.contains_key(k) && forall|j: Slot| #[trigger] m.contains_key(j) ==> j <= k,
        None => m == Map::<Slot, SlotInfo>::empty(),
    }
}

/// The last slot of the map, zero where there is none.
pub open spec fn last_slot(m: Map<Slot, SlotInfo>) -> Slot {
    if m == Map::<Slot, SlotInfo>::empty() {
        0
    } else {
        choose|k: Slot| is_last(m, Some(k))
    }
}

/// The map without the slots up to `upto`.
pub open spec fn beyond(m: Map<Slot, SlotInfo>, upto: Slot) -> Map<Slot, SlotInfo> {
    Map::new(|k: Slot| m.contains_key(k) && k > upto, |k: Slot| m[k])
}

impl SlotTable {
    /// The slots of the entries grow.
    #[verifier::type_invariant]
    spec fn wf(&self) -> bool {
        sorted(self.entries@)
    }

    /// No slot.
    pub fn new() -> (r: Self)
        ensures
            r@ == Map::<Slot, SlotInfo>::empty(),
    {
        SlotTable { entries: Vec::new() }
    }

    /// How many slots there are.
    pub fn len(&self) -> (r: usize)
        ensures
            r == self@.dom().len(),
            self@.dom().finite(),
            (r == 0) == (self@ == Map::<Slot, SlotInfo>::empty()),
    {
        proof {
            use_type_invariant(self);
            lemma_table(self.entries@);
            lemma_table_len(self.entries@);
            if self.entries@.len() > 0 {
                assert(self@.contains_key(self.entries@[0].0));
            }
        }
        self.entries.len()
    }

    /// The place of the slot, or where it would be.
    fn place(&self, slot: Slot) -> (r: usize)
        ensures
            r <= self.entries@.len(),
            forall|j: int| 0 <= j < r ==> (#[trigger] self.entries@[j]).0 < slot,
            forall|j: int| r <= j < self.entries@.len() ==> (#[trigger] self.entries@[j]).0 >= slot,
    {
        proof {
            use_type_invariant(self);
        }
        let mut i: usize = 0;
        while i < self.entries.len()
            invariant
                i <= self.entries@.len(),
                sorted(self.entries@),
                forall|j: int| 0 <= j < i ==> (#[trigger] self.entries@[j]).0 < slot,
            decreases self.entries@.len() - i,
        {
            if self.entries[i].0 >= slot {
                return i;
            }
            i = i + 1;
        }
        i
    }

    /// What is known of the slot.
    pub fn get(&self, slot: Slot) -> (r: Option<SlotInfo>)
        ensures
            r == if self@.contains_key(slot) {
                Some(self@[slot])
            } else {
                None
            },
    {
        proof {
            use_type_invariant(self);
            lemma_table(self.entries@);
        }
        let i: usize = self.place(slot);
        if i < self.entries.len() && self.entries[i].0 == slot {
            Some(self.entries[i].1)
        } else {
            None
        }
    }

    /// Keeps what is known of the slot.
    pub fn set(&mut self, slot: Slot, info: SlotInfo)
        ensures
            final(self)@ == old(self)@.insert(slot, info),
    {
        proof {
            use_type_invariant(&*self);
        }
        let i: usize = self.place(slot);
        let mut entries: Vec<(Slot, SlotInfo)> = Vec::new();
        let ghost before = self.entries@;
        std::mem::swap(&mut entries, &mut self.entries);
        if i < entries.len() && entries[i].0 == slot {
            entries.set(i, (slot, info));
            proof {
                lemma_replaced(before, i as int, info);
            }
        } else {
            entries.insert(i, (slot, info));
            proof {
                lemma_inserted(before, i as int, slot, info);
            }
        }
        self.entries = entries;
    }

    /// The first slot.
    pub fn first(&self) -> (r: Option<Slot>)
        ensures
            is_first(self@, r),
    {
        proof {
            use_type_invariant(self);
            lemma_table(self.entries@);
        }
        if self.entries.len() == 0 {
            None
        } else {
            assert(self@.contains_key(self.entries@[0].0));
            Some(self.entries[0].0)
        }
    }

    /// The last slot.
    pub fn last(&self) -> (r: Option<Slot>)
        ensures
            is_last(self@, r),
    {
        proof {
            use_type_invariant(self);
            lemma_table(self.entries@);
        }
        let n: usize = self.entries.len();
        if n == 0 {
            None
        } else {
            assert(self@.contains_key(self.entries@[n - 1].0));
            Some(self.entries[n - 1].0)
        }
    }

    /// Forgets the slots up to `upto`.
    pub fn remove_upto(&mut self, upto: Slot)
        ensures
            final(self)@ == beyond(old(self)@, upto),
    {
        proof {
            use_type_invariant(&*self);
        }
        let ghost before = self.entries@;
        let mut entries: Vec<(Slot, SlotInfo)> = Vec::new();
        std::mem::swap(&mut entries, &mut self.entries);
        let ghost mut gone: int = 0;
        assert(before.skip(0) =~= before);
        while entries.len() > 0 && entries[0].0 <= upto
            invariant
                0 <= gone <= before.len(),
                sorted(before),
                entries@ == before.skip(gone),
                forall|j: int| 0 <= j < gone ==> (#[trigger] before[j]).0 <= upto,
            decreases entries@.len(),
        {
            assert(entries@[0] == before[gone]);
            entries.remove(0);
            proof {
                assert(before.skip(gone).remove(0) =~= before.skip(gone + 1));
                gone = gone + 1;
            }
        }
        proof {
            lemma_removed(before, gone, upto);
        }
        self.entries = entries;
    }
}

/// There is only one last slot.
pub proof fn lemma_last_slot(m: Map<Slot, SlotInfo>, k: Option<Slot>)
    requires
        is_last(m, k),
    ensures
        last_slot(m) == match k {
            Some(k) => k,
            None => 0,
        },
{
    if let Some(k) = k {
        assert(m.contains_key(k));
        assert(is_last(m, Some(k)));
        let j = last_slot(m);
        assert(m.contains_key(j) && m.contains_key(k));
    }
}

} // verus!
