//! Which of several sources tells first: a race for each thing that is tracked.
use vstd::prelude::*;
use vstd::string::StringExecFns;

use crate::channel::RichatFilter;
use crate::pubkey::Slot;
use crate::request::{
    SubscribeRequest, SubscribeRequestFilterAccounts, SubscribeRequestFilterSlots,
    SubscribeRequestFilterTransactions,
};
use crate::stream::{UpdateOneof, UpdateView};
use crate::text;

verus! {

// ---------------------------------------------------------------------------------------------
// What is tracked
// ---------------------------------------------------------------------------------------------

/// What to track.
#[derive(Debug, Clone, Copy, PartialEq, Eq, Structural)]
pub enum ConfigTrack {
    BlockMeta,
    Transaction { index: u64 },
}

/// The slot in which the update is what is tracked, where it is.
pub open spec fn matched(track: ConfigTrack, update: UpdateView) -> Option<Slot> {
    match (track, update) {
        (ConfigTrack::BlockMeta, UpdateView::BlockMeta(m)) => Some(m.slot),
        (
            ConfigTrack::Transaction { index },
            UpdateView::Transaction { transaction: Some(info), slot },
        ) => if index == info.index {
            Some(slot)
        } else {
            None
        },
        _ => None,
    }
}

/// What is tracked, as it is shown.
pub open spec fn info_text(track: ConfigTrack, slot: Slot) -> Seq<char> {
    "Slot "@ + text::decimal(slot as nat) + match track {
        ConfigTrack::BlockMeta => " | BlockMeta"@,
        ConfigTrack::Transaction { index } => " | Transaction#"@ + text::decimal(index as nat),
    }
}

impl ConfigTrack {
    /// The slot in which the update is what is tracked, where it is.
    pub fn matches(&self, update: &UpdateOneof) -> (r: Option<Slot>)
        ensures
            r == matched(*self, update@),
    {
        match (self, update) {
            (ConfigTrack::BlockMeta, UpdateOneof::BlockMeta(m)) => Some(m.slot),
            (ConfigTrack::Transaction { index }, UpdateOneof::Transaction(m)) => match &m.transaction {
                Some(info) => if *index == info.index {
                    Some(m.slot)
                } else {
                    None
                },
                None => None,
            },
            _ => None,
        }
    }

    /// What is tracked, as it is shown.
    pub fn to_info(&self, slot: Slot) -> (r: String)
        ensures
            r@ == info_text(*self, slot),
    {
        let mut info: String = "Slot ".to_owned();
        info.append(text::decimal_text(slot).as_str());
        match self {
            ConfigTrack::BlockMeta => {
                info.append(" | BlockMeta");
            },
            ConfigTrack::Transaction { index } => {
                let number = text::decimal_text(*index);
                let ghost before = info@;
                info.append(" | Transaction#");
                info.append(number.as_str());
                assert(info@ =~= before + (" | Transaction#"@ + number@));
            },
        }
        info
    }
}

/// Whether the list holds the filter without a name, and none where it is off.
pub open spec fn unnamed<T>(list: Seq<(String, T)>, on: bool) -> bool {
    if on {
        list.len() == 1 && list[0].0@ == ""@
    } else {
        list.len() == 0
    }
}

/// Whether the request asks for all that is tracked: the accounts and the transactions where they are
/// enabled, the statuses of slots, entries and block metadata.
pub open spec fn asks_for_tracked(
    r: SubscribeRequest,
    accounts_enabled: bool,
    transactions_enabled: bool,
) -> bool {
    &&& unnamed(r.accounts@, accounts_enabled)
    &&& unnamed(r.slots@, true)
    &&& unnamed(r.transactions@, transactions_enabled)
    &&& r.slots@[0].1.filter_by_commitment == Some(false)
    &&& r.slots@[0].1.interslot_updates == Some(true)
    &&& r.transactions_status@.len() == 0
    &&& r.blocks@.len() == 0
    &&& r.blocks_meta@.len() == 1
    &&& r.entry@.len() == 1
    &&& r.commitment == Some(0i32)
    &&& r.accounts_data_slice@.len() == 0
    &&& r.from_slot is None
}

/// What to ask a source for: all that is tracked, and the accounts where they are enabled.
pub fn subscribe_request(accounts_enabled: bool, transactions_enabled: bool) -> (r: SubscribeRequest)
    ensures
        unnamed(r.accounts@, accounts_enabled),
        accounts_enabled ==> {
            let filter = r.accounts@[0].1;
            &&& filter.account@.len() == 0
            &&& filter.owner@.len() == 0
            &&& filter.filters@.len() == 0
            &&& filter.nonempty_txn_signature is None
        },
        unnamed(r.slots@, true),
        r.slots@[0].1 == (SubscribeRequestFilterSlots {
            filter_by_commitment: Some(false),
            interslot_updates: Some(true),
        }),
        unnamed(r.transactions@, transactions_enabled),
        transactions_enabled ==> {
            let filter = r.transactions@[0].1;
            &&& filter.vote is None
            &&& filter.failed is None
            &&& filter.signature is None
            &&& filter.account_include@.len() == 0
            &&& filter.account_exclude@.len() == 0
            &&& filter.account_required@.len() == 0
        },
        r.transactions_status@.len() == 0,
        r.blocks@.len() == 0,
        r.blocks_meta@.len() == 1,
        r.blocks_meta@[0]@ == ""@,
        r.entry@.len() == 1,
        r.entry@[0]@ == ""@,
        r.commitment == Some(0i32),
        r.accounts_data_slice@.len() == 0,
        r.ping is None,
        r.from_slot is None,
        asks_for_tracked(r, accounts_enabled, transactions_enabled),
{
    let mut accounts: Vec<(String, SubscribeRequestFilterAccounts)> = Vec::new();
    if accounts_enabled {
        accounts.push(
            (
                "".to_owned(),
                SubscribeRequestFilterAccounts {
                    account: Vec::new(),
                    owner: Vec::new(),
                    filters: Vec::new(),
                    nonempty_txn_signature: None,
                },
            ),
        );
    }
    let mut transactions: Vec<(String, SubscribeRequestFilterTransactions)> = Vec::new();
    if transactions_enabled {
        transactions.push(
            (
                "".to_owned(),
                SubscribeRequestFilterTransactions {
                    vote: None,
                    failed: None,
                    signature: None,
                    account_include: Vec::new(),
                    account_exclude: Vec::new(),
                    account_required: Vec::new(),
                },
            ),
        );
    }
    let mut slots: Vec<(String, SubscribeRequestFilterSlots)> = Vec::new();
    slots.push(
        (
            "".to_owned(),
            SubscribeRequestFilterSlots {
                filter_by_commitment: Some(false),
                interslot_updates: Some(true),
            },
        ),
    );
    let mut blocks_meta: Vec<String> = Vec::new();
    blocks_meta.push("".to_owned());
    let mut entry: Vec<String> = Vec::new();
    entry.push("".to_owned());
    SubscribeRequest {
        slots,
        accounts,
        transactions,
        transactions_status: Vec::new(),
        entry,
        blocks: Vec::new(),
        blocks_meta,
        commitment: Some(0),
        accounts_data_slice: Vec::new(),
        ping: None,
        from_slot: None,
    }
}

/// What to ask a plugin for.
pub open spec fn tracking_filter(accounts_enabled: bool, transactions_enabled: bool) -> RichatFilter {
    RichatFilter {
        disable_accounts: !accounts_enabled,
        disable_transactions: !transactions_enabled,
        ..crate::channel::no_filter()
    }
}

/// What to ask a plugin for.
pub fn richat_filter(accounts_enabled: bool, transactions_enabled: bool) -> (r: RichatFilter)
    ensures
        r == tracking_filter(accounts_enabled, transactions_enabled),
        r == (RichatFilter {
            disable_accounts: !accounts_enabled,
            disable_transactions: !transactions_enabled,
            ..crate::channel::no_filter()
        }),
{
    RichatFilter {
        disable_accounts: !accounts_enabled,
        disable_transactions: !transactions_enabled,
        ..RichatFilter::default()
    }
}

// ---------------------------------------------------------------------------------------------
// Races
// ---------------------------------------------------------------------------------------------

/// How a source did: how often it was first, and how late it was in all when it was not. Delays are in
/// nanoseconds.
#[derive(Debug, Clone, Copy, PartialEq, Eq, Structural)]
pub struct TrackStat {
    pub win: u64,
    pub delay: u128,
    pub delay_count: u32,
}

/// What was tracked in a slot, and when each source told of it, in nanoseconds. Sources are numbered in
/// the order of their names.
#[derive(Debug)]
struct TrackEntry {
    slot: Slot,
    track: ConfigTrack,
    times: Vec<Option<u64>>,
}

/// When each source told of what was tracked, and how the sources did.
pub ghost struct TrackView {
    pub times: Map<(Slot, ConfigTrack), Seq<Option<u64>>>,
    pub stats: Seq<TrackStat>,
}

/// Whether all sources told of it.
pub open spec fn complete(row: Seq<Option<u64>>) -> bool {
    forall|i: int| 0 <= i < row.len() ==> #[trigger] row[i] is Some
}

/// The times, where there are all of them.
pub open spec fn all_times(row: Seq<Option<u64>>) -> Seq<u64> {
    row.map_values(|t: Option<u64>| t->Some_0)
}

/// The source that was first: of those at the same time, the first of them.
pub open spec fn best(times: Seq<u64>) -> int
    decreases times.len(),
{
    if times.len() <= 1 {
        0
    } else {
        let b = best(times.drop_last());
        if times.last() < times[b] {
            times.len() - 1
        } else {
            b
        }
    }
}

/// How the source did after the race.
pub open spec fn raced(stat: TrackStat, times: Seq<u64>, i: int) -> TrackStat {
    if i == best(times) {
        TrackStat { win: (stat.win + 1) as u64, ..stat }
    } else {
        TrackStat {
            win: stat.win,
            delay: (stat.delay + (times[i] - times[best(times)])) as u128,
            delay_count: (stat.delay_count + 1) as u32,
        }
    }
}

/// How the sources did after the race.
pub open spec fn raced_all(stats: Seq<TrackStat>, times: Seq<u64>) -> Seq<TrackStat> {
    Seq::new(stats.len(), |i: int| raced(stats[i], times, i))
}

/// When each source told of it: so far none did.
pub open spec fn row_at(m: TrackView, key: (Slot, ConfigTrack)) -> Seq<Option<u64>> {
    if m.times.contains_key(key) {
        m.times[key]
    } else {
        Seq::new(m.stats.len(), |i: int| None)
    }
}

/// When each source told of it, after one of them did.
pub open spec fn new_row(m: TrackView, key: (Slot, ConfigTrack), source: int, ts: u64) -> Seq<
    Option<u64>,
> {
    row_at(m, key).update(source, Some(ts))
}

/// After the source told of it at the time. Once all sources did, they raced.
pub open spec fn added(m: TrackView, slot: Slot, track: ConfigTrack, source: int, ts: u64) -> TrackView {
    let row = new_row(m, (slot, track), source, ts);
    TrackView {
        times: m.times.insert((slot, track), row),
        stats: if complete(row) {
            raced_all(m.stats, all_times(row))
        } else {
            m.stats
        },
    }
}

/// What was tracked from the slot on.
pub open spec fn cleared(m: TrackView, finalized: Slot) -> TrackView {
    TrackView {
        times: m.times.restrict(Set::new(|key: (Slot, ConfigTrack)| key.0 >= finalized)),
        stats: m.stats,
    }
}

/// When each source told of what is tracked in the slot.
spec fn seen(entries: Seq<TrackEntry>, key: (Slot, ConfigTrack)) -> Option<Seq<Option<u64>>>
    decreases entries.len(),
{
    if entries.len() == 0 {
        None
    } else if (entries.last().slot, entries.last().track) == key {
        Some(entries.last().times@)
    } else {
        seen(entries.drop_last(), key)
    }
}

/// The entries, by what was tracked.
spec fn seen_all(entries: Seq<TrackEntry>) -> Map<(Slot, ConfigTrack), Seq<Option<u64>>> {
    Map::new(
        |key: (Slot, ConfigTrack)| seen(entries, key) is Some,
        |key: (Slot, ConfigTrack)| seen(entries, key)->Some_0,
    )
}

/// When each source told of what was tracked, and how the sources did.
#[derive(Debug)]
pub struct TrackStorage {
    entries: Vec<TrackEntry>,
    stats: Vec<TrackStat>,
}

impl View for TrackStorage {
    type V = TrackView;

    closed spec fn view(&self) -> TrackView {
        TrackView { times: seen_all(self.entries@), stats: self.stats@ }
    }
}

/// Whether each entry has a place for each source, and none comes twice.
spec fn entries_fit(entries: Seq<TrackEntry>, total: nat) -> bool {
    &&& forall|i: int| 0 <= i < entries.len() ==> (#[trigger] entries[i]).times@.len() == total
    &&& forall|i: int, j: int|
        0 <= i < j < entries.len() ==> (#[trigger] entries[i].slot, entries[i].track) != (
            #[trigger] entries[j].slot,
            entries[j].track,
        )
}

/// Whether no delay is more than there can be.
spec fn delays_fit(stats: Seq<TrackStat>) -> bool {
    forall|i: int|
        0 <= i < stats.len() ==> (#[trigger] stats[i]).delay <= stats[i].delay_count * u64::MAX
}

/// Whether `n` more races can be counted.
pub open spec fn has_room(stats: Seq<TrackStat>, n: nat) -> bool {
    forall|i: int|
        0 <= i < stats.len() ==> (#[trigger] stats[i]).win + n <= u64::MAX && stats[i].delay_count
            + n <= u32::MAX
}

/// The one that was first was so before any that came before it, and no later than any after it.
pub proof fn law_best(times: Seq<u64>)
    requires
        times.len() > 0,
    ensures
        0 <= best(times) < times.len(),
        forall|i: int| 0 <= i < times.len() ==> times[best(times)] <= #[trigger] times[i],
        forall|i: int| 0 <= i < best(times) ==> times[best(times)] < #[trigger] times[i],
    decreases times.len(),
{
    if times.len() > 1 {
        let before = times.drop_last();
        law_best(before);
        let b = best(before);
        assert forall|i: int| 0 <= i < times.len() implies times[best(times)] <= #[trigger] times[i] by {
            if i < before.len() {
                assert(before[i] == times[i]);
            }
        }
        assert forall|i: int| 0 <= i < best(times) implies times[best(times)] < #[trigger] times[i] by {
            assert(before[i] == times[i]);
        }
    }
}

/// A race has one winner, and all others are counted as late. The winner is no later than any other, and
/// before those that come before it in the order of names.
pub proof fn law_race(stats: Seq<TrackStat>, times: Seq<u64>)
    requires
        times.len() > 0,
        stats.len() == times.len(),
        has_room(stats, 1),
    ensures
        forall|i: int|
            #![trigger raced_all(stats, times)[i]]
            0 <= i < stats.len() ==> {
                let before = stats[i];
                let after = raced_all(stats, times)[i];
                &&& after.win == before.win + if i == best(times) {
                    1int
                } else {
                    0int
                }
                &&& after.delay_count == before.delay_count + if i == best(times) {
                    0int
                } else {
                    1int
                }
                &&& after.win == before.win + 1 <==> {
                    &&& forall|j: int| 0 <= j < times.len() ==> times[i] <= #[trigger] times[j]
                    &&& forall|j: int| 0 <= j < i ==> times[i] < #[trigger] times[j]
                }
                &&& after.win == before.win <==> after.delay_count == before.delay_count + 1
            },
        raced_all(stats, times).len() == stats.len(),
{
    law_best(times);
    let b = best(times);
    assert forall|i: int|
        #![trigger raced_all(stats, times)[i]]
        0 <= i < stats.len() && i != b implies !{
        &&& forall|j: int| 0 <= j < times.len() ==> times[i] <= #[trigger] times[j]
        &&& forall|j: int| 0 <= j < i ==> times[i] < #[trigger] times[j]
    } by {
        if forall|j: int| 0 <= j < times.len() ==> times[i] <= #[trigger] times[j] {
            assert(times[i] <= times[b]);
            if i < b {
                assert(times[b] < times[i]);
            }
        }
    }
}

/// A race makes each source later by how much later than the earliest of them it told: the winner by
/// nothing.
pub proof fn law_race_delay(stats: Seq<TrackStat>, times: Seq<u64>, i: int, earliest: int)
    requires
        stats.len() == times.len(),
        0 <= i < times.len(),
        0 <= earliest < times.len(),
        forall|j: int| 0 <= j < times.len() ==> times[earliest] <= #[trigger] times[j],
        stats[i].delay + u64::MAX <= u128::MAX,
    ensures
        raced_all(stats, times)[i].delay == stats[i].delay + (times[i] - times[earliest]),
{
    law_best(times);
    assert(times[best(times)] <= times[earliest]);
    assert(times[earliest] <= times[best(times)]);
}

/// How the sources did after the races, each of them given by its times.
pub open spec fn raced_each(stats: Seq<TrackStat>, races: Seq<Seq<u64>>) -> Seq<TrackStat>
    decreases races.len(),
{
    if races.len() == 0 {
        stats
    } else {
        raced_all(raced_each(stats, races.drop_last()), races.last())
    }
}

/// The earliest of the times.
pub open spec fn earliest(times: Seq<u64>) -> u64
    decreases times.len(),
{
    if times.len() <= 1 {
        times[0]
    } else if times.last() < earliest(times.drop_last()) {
        times.last()
    } else {
        earliest(times.drop_last())
    }
}

/// How much later than the earliest the source was, over all the races.
pub open spec fn lateness(races: Seq<Seq<u64>>, i: int) -> int
    decreases races.len(),
{
    if races.len() == 0 {
        0
    } else {
        lateness(races.drop_last(), i) + (races.last()[i] - earliest(races.last()))
    }
}

/// In how many of the races another source came before the source, or one before it in the order of names
/// was as early.
pub open spec fn losses(races: Seq<Seq<u64>>, i: int) -> nat
    decreases races.len(),
{
    if races.len() == 0 {
        0
    } else {
        losses(races.drop_last(), i) + if exists|j: int|
            0 <= j < races.last().len() && (#[trigger] races.last()[j] < races.last()[i] || j < i
                && races.last()[j] == races.last()[i]) {
            1nat
        } else {
            0nat
        }
    }
}

proof fn lemma_earliest(times: Seq<u64>)
    requires
        times.len() > 0,
    ensures
        earliest(times) == times[best(times)],
    decreases times.len(),
{
    if times.len() > 1 {
        lemma_earliest(times.drop_last());
        law_best(times.drop_last());
    }
}

/// Over a run of races the delay of a source is the sum of how late it was in each of them, its losses are
/// counted once each, and all other races are wins.
pub proof fn law_races(stats: Seq<TrackStat>, races: Seq<Seq<u64>>, i: int)
    requires
        0 <= i < stats.len(),
        forall|k: int| 0 <= k < races.len() ==> (#[trigger] races[k]).len() == stats.len(),
        has_room(stats, races.len()),
        forall|k: int|
            0 <= k < stats.len() ==> (#[trigger] stats[k]).delay + races.len() * u64::MAX
                <= u128::MAX,
    ensures
        ({
            let after = raced_each(stats, races)[i];
            &&& raced_each(stats, races).len() == stats.len()
            &&& after.delay == stats[i].delay + lateness(races, i)
            &&& after.delay_count == stats[i].delay_count + losses(races, i)
            &&& after.win == stats[i].win + (races.len() - losses(races, i))
            &&& losses(races, i) <= races.len()
            &&& 0 <= lateness(races, i) <= races.len() * u64::MAX
        }),
    decreases races.len(),
{
    if races.len() > 0 {
        let rest = races.drop_last();
        let n = races.len();
        assert(races[n - 1] == races.last());
        assert forall|k: int| 0 <= k < rest.len() implies (#[trigger] rest[k]).len()
            == stats.len() by {
            assert(rest[k] == races[k]);
        }
        assert((n - 1) * u64::MAX + u64::MAX == n * u64::MAX) by (nonlinear_arith);
        assert forall|k: int| 0 <= k < stats.len() implies (#[trigger] stats[k]).win + rest.len()
            <= u64::MAX && stats[k].delay_count + rest.len() <= u32::MAX by {
            assert(stats[k].win + n <= u64::MAX);
        }
        law_races(stats, rest, i);
        let before = raced_each(stats, rest);
        let times = races.last();
        lemma_earliest(times);
        law_best(times);
        let b = best(times);
        assert(stats[i].win + n <= u64::MAX && stats[i].delay_count + n <= u32::MAX);
        assert(stats[i].delay + n * u64::MAX <= u128::MAX);
        assert(raced_each(stats, races)[i] == raced(before[i], times, i));
        if i == b {
            assert forall|j: int| 0 <= j < times.len() implies !(#[trigger] times[j] < times[i] || j
                < i && times[j] == times[i]) by {}
        } else if b < i {
            assert(times[b] < times[i] || b < i && times[b] == times[i]);
        } else {
            assert(times[b] < times[i]);
        }
    }
}

/// The average is how late a source was in all, spread evenly over the races that it lost: so often it
/// does not reach the whole, and once more for each race it does.
pub proof fn law_average(stat: TrackStat)
    ensures
        stat.delay_count == 0 ==> average(stat) == 0,
        stat.delay_count > 0 ==> {
            &&& stat.delay_count * average(stat) <= stat.delay
            &&& stat.delay < stat.delay_count * (average(stat) + 1)
        },
{
    if stat.delay_count > 0 {
        let d = stat.delay as nat;
        let c = stat.delay_count as nat;
        assert(c * (d / c) <= d && d < c * (d / c + 1)) by (nonlinear_arith)
            requires
                c > 0,
        ;
    }
}

/// What a source told is kept beside what the others told of it, and all else is as it was. Nothing is
/// counted before all sources told of it.
pub proof fn law_add(m: TrackView, slot: Slot, track: ConfigTrack, source: int, ts: u64)
    requires
        0 <= source < m.stats.len(),
        forall|key: (Slot, ConfigTrack)|
            m.times.contains_key(key) ==> (#[trigger] m.times[key]).len() == m.stats.len(),
    ensures
        ({
            let after = added(m, slot, track, source, ts);
            let row = after.times[(slot, track)];
            &&& after.times.contains_key((slot, track))
            &&& row.len() == m.stats.len()
            &&& row[source] == Some(ts)
            &&& forall|j: int|
                0 <= j < row.len() && j != source ==> #[trigger] row[j] == if m.times.contains_key(
                    (slot, track),
                ) {
                    m.times[(slot, track)][j]
                } else {
                    None
                }
            &&& forall|key: (Slot, ConfigTrack)|
                key != (slot, track) ==> (#[trigger] after.times.contains_key(key)
                    <==> m.times.contains_key(key))
            &&& forall|key: (Slot, ConfigTrack)|
                key != (slot, track) && m.times.contains_key(key) ==> #[trigger] after.times[key]
                    == m.times[key]
            &&& after.stats.len() == m.stats.len()
            &&& (exists|j: int| 0 <= j < row.len() && #[trigger] row[j] is None) ==> after.stats
                == m.stats
            &&& forall|times: Seq<u64>|
                times.len() == row.len() && (forall|j: int|
                    0 <= j < row.len() ==> #[trigger] row[j] == Some(times[j])) ==> after.stats
                    == #[trigger] raced_all(m.stats, times)
        }),
{
    let after = added(m, slot, track, source, ts);
    let row = after.times[(slot, track)];
    assert forall|times: Seq<u64>|
        times.len() == row.len() && (forall|j: int|
            0 <= j < row.len() ==> #[trigger] row[j] == Some(times[j])) implies after.stats
        == #[trigger] raced_all(m.stats, times) by {
        assert(complete(row));
        assert(all_times(row) =~= times);
    }
}

/// Where two sources tell of the same thing, it does not matter which of them is heard first.
pub proof fn law_add_order(
    m: TrackView,
    slot: Slot,
    track: ConfigTrack,
    a: int,
    ts_a: u64,
    b: int,
    ts_b: u64,
)
    requires
        0 <= a < m.stats.len(),
        0 <= b < m.stats.len(),
        a != b,
        m.times.contains_key((slot, track)) ==> m.times[(slot, track)].len() == m.stats.len()
            && m.times[(slot, track)][a] is None && m.times[(slot, track)][b] is None,
    ensures
        added(added(m, slot, track, a, ts_a), slot, track, b, ts_b) == added(
            added(m, slot, track, b, ts_b),
            slot,
            track,
            a,
            ts_a,
        ),
{
    let key = (slot, track);
    let row = row_at(m, key);
    let first = added(m, slot, track, a, ts_a);
    let second = added(m, slot, track, b, ts_b);
    assert(row.update(a, Some(ts_a))[b] is None);
    assert(row.update(b, Some(ts_b))[a] is None);
    assert(first.stats == m.stats && second.stats == m.stats);
    assert(row.update(a, Some(ts_a)).update(b, Some(ts_b)) =~= row.update(b, Some(ts_b)).update(
        a,
        Some(ts_a),
    ));
    let x = added(first, slot, track, b, ts_b);
    let y = added(second, slot, track, a, ts_a);
    assert(x.times =~= y.times);
}

/// An update is what is tracked in its own slot or in none: block metadata where that is tracked, and a
/// transaction where its index is.
pub proof fn law_matched(track: ConfigTrack, update: UpdateView, slot: Slot)
    ensures
        matched(track, update) == Some(slot) <==> {
            ||| track is BlockMeta && update is BlockMeta && update->BlockMeta_0.slot == slot
            ||| track is Transaction && update is Transaction && update->Transaction_slot == slot
                && (update->Transaction_transaction matches Some(info) && info.index
                == track->Transaction_index)
        },
{
}

/// An update tells that a slot is final exactly where its status is the final one.
pub proof fn law_finalized(update: UpdateView, slot: Slot)
    ensures
        finalized_slot(update) == Some(slot) <==> (update matches UpdateView::Slot(m) && m.slot
            == slot && crate::geyser::slot_status_of(m.status) == Some(
            crate::geyser::SlotStatus::SlotFinalized,
        )),
{
}

/// An update adds to the races exactly what is tracked of it: where it is none of the tracks, nothing
/// changes, and with one more track, what that track has of it is added.
pub proof fn law_after_update(
    m: TrackView,
    tracks: Seq<ConfigTrack>,
    track: ConfigTrack,
    update: UpdateView,
    source: int,
    ts: u64,
)
    ensures
        (forall|i: int| 0 <= i < tracks.len() ==> matched(#[trigger] tracks[i], update) is None)
            ==> after_update(m, tracks, update, source, ts) == m && races(
            m,
            tracks,
            update,
            source,
            ts,
        ).len() == 0,
        ({
            let before = after_update(m, tracks, update, source, ts);
            let more = after_update(m, tracks.push(track), update, source, ts);
            match matched(track, update) {
                Some(slot) => more == added(before, slot, track, source, ts),
                None => more == before,
            }
        }),
    decreases tracks.len(),
{
    assert(tracks.push(track).drop_last() =~= tracks);
    if tracks.len() > 0 {
        let rest = tracks.drop_last();
        law_after_update(m, rest, tracks.last(), update, source, ts);
        if forall|i: int| 0 <= i < tracks.len() ==> matched(#[trigger] tracks[i], update) is None {
            assert forall|i: int| 0 <= i < rest.len() implies matched(#[trigger] rest[i], update)
                is None by {
                assert(rest[i] == tracks[i]);
            }
            assert(matched(tracks[tracks.len() - 1], update) is None);
        }
    }
}

/// What was tracked from the slot on is kept, the rest is not, and clearing twice is clearing once.
pub proof fn law_clear(m: TrackView, a: Slot, b: Slot)
    ensures
        forall|key: (Slot, ConfigTrack)| #[trigger]
            cleared(m, a).times.contains_key(key) <==> m.times.contains_key(key) && key.0 >= a,
        forall|key: (Slot, ConfigTrack)|
            cleared(m, a).times.contains_key(key) ==> #[trigger] cleared(m, a).times[key]
                == m.times[key],
        cleared(m, a).stats == m.stats,
        cleared(cleared(m, a), b) == cleared(
            m,
            if a < b {
                b
            } else {
                a
            },
        ),
{
    let c = if a < b {
        b
    } else {
        a
    };
    assert(cleared(cleared(m, a), b).times =~= cleared(m, c).times);
}

proof fn lemma_seen(entries: Seq<TrackEntry>, i: int)
    requires
        0 <= i < entries.len(),
        forall|j: int|
            i < j < entries.len() ==> (#[trigger] entries[j].slot, entries[j].track) != (
                entries[i].slot,
                entries[i].track,
            ),
    ensures
        seen(entries, (entries[i].slot, entries[i].track)) == Some(entries[i].times@),
    decreases entries.len(),
{
    if i < entries.len() - 1 {
        assert(entries.last() == entries[entries.len() - 1]);
        let before = entries.drop_last();
        assert forall|j: int| i < j < before.len() implies (
            #[trigger] before[j].slot,
            before[j].track,
        ) != (before[i].slot, before[i].track) by {
            assert(before[j] == entries[j]);
        }
        lemma_seen(before, i);
    }
}

proof fn lemma_unseen(entries: Seq<TrackEntry>, key: (Slot, ConfigTrack))
    requires
        forall|j: int|
            0 <= j < entries.len() ==> (#[trigger] entries[j].slot, entries[j].track) != key,
    ensures
        seen(entries, key) is None,
    decreases entries.len(),
{
    if entries.len() > 0 {
        assert(entries.last() == entries[entries.len() - 1]);
        let before = entries.drop_last();
        assert forall|j: int| 0 <= j < before.len() implies (
            #[trigger] before[j].slot,
            before[j].track,
        ) != key by {
            assert(before[j] == entries[j]);
        }
        lemma_unseen(before, key);
    }
}

proof fn lemma_seen_update(entries: Seq<TrackEntry>, i: int, e: TrackEntry, key: (Slot, ConfigTrack))
    requires
        0 <= i < entries.len(),
        e.slot == entries[i].slot,
        e.track == entries[i].track,
        (e.slot, e.track) != key,
    ensures
        seen(entries.update(i, e), key) == seen(entries, key),
    decreases entries.len(),
{
    if i == entries.len() - 1 {
        assert(entries.update(i, e).drop_last() =~= entries.drop_last());
    } else {
        assert(entries.update(i, e).drop_last() =~= entries.drop_last().update(i, e));
        lemma_seen_update(entries.drop_last(), i, e, key);
    }
}

/// A race that all sources took part in.
#[derive(Debug)]
pub struct Race {
    pub slot: Slot,
    pub track: ConfigTrack,
    /// The source that was first.
    pub best: usize,
    /// When each source told of it, in nanoseconds.
    pub times: Vec<u64>,
}

/// A race that all sources took part in.
pub ghost struct RaceView {
    pub slot: Slot,
    pub track: ConfigTrack,
    pub times: Seq<u64>,
}

impl Race {
    /// Whether this is the race.
    pub open spec fn is(&self, race: RaceView) -> bool {
        &&& self.slot == race.slot
        &&& self.track == race.track
        &&& self.times@ == race.times
        &&& self.best == best(race.times)
    }
}

/// The times, where there are all of them.
fn take_times(row: &Vec<Option<u64>>) -> (r: Option<Vec<u64>>)
    ensures
        r is Some <==> complete(row@),
        r is Some ==> r->Some_0@ == all_times(row@),
{
    let mut times: Vec<u64> = Vec::new();
    let mut i: usize = 0;
    while i < row.len()
        invariant
            i <= row@.len(),
            times@.len() == i,
            forall|j: int|
                0 <= j < i ==> #[trigger] row@[j] is Some && times@[j] == row@[j]->Some_0,
        decreases row@.len() - i,
    {
        match row[i] {
            Some(t) => {
                times.push(t);
            },
            None => {
                assert(row@[i as int] is None);
                return None;
            },
        }
        i = i + 1;
    }
    proof {
        assert forall|j: int| 0 <= j < row@.len() implies times@[j] == all_times(row@)[j] by {
            assert(row@[j] is Some);
        }
        assert(times@ =~= all_times(row@));
    }
    Some(times)
}

/// The source that was first.
fn find_best(times: &Vec<u64>) -> (r: usize)
    requires
        times@.len() > 0,
    ensures
        r == best(times@),
        r < times@.len(),
{
    let mut b: usize = 0;
    let mut i: usize = 1;
    assert(times@.take(1).len() == 1);
    while i < times.len()
        invariant
            1 <= i <= times@.len(),
            b < i,
            b == best(times@.take(i as int)),
        decreases times@.len() - i,
    {
        proof {
            assert(times@.take(i + 1).drop_last() =~= times@.take(i as int));
            assert(times@.take(i + 1).last() == times@[i as int]);
            assert(times@.take(i + 1)[b as int] == times@[b as int]);
        }
        if times[i] < times[b] {
            b = i;
        }
        i = i + 1;
    }
    assert(times@.take(i as int) =~= times@);
    b
}

/// How the sources did after the race.
fn run_race(stats: &Vec<TrackStat>, times: &Vec<u64>, first: usize) -> (r: Vec<TrackStat>)
    requires
        times@.len() > 0,
        stats@.len() == times@.len(),
        first == best(times@),
        has_room(stats@, 1),
        delays_fit(stats@),
    ensures
        r@ == raced_all(stats@, times@),
        delays_fit(r@),
{
    proof {
        law_best(times@);
    }
    let mut after: Vec<TrackStat> = Vec::new();
    let mut i: usize = 0;
    while i < stats.len()
        invariant
            i <= stats@.len(),
            stats@.len() == times@.len(),
            first == best(times@),
            first < times@.len(),
            forall|j: int| 0 <= j < times@.len() ==> times@[first as int] <= #[trigger] times@[j],
            has_room(stats@, 1),
            delays_fit(stats@),
            after@.len() == i,
            forall|j: int| 0 <= j < i ==> #[trigger] after@[j] == raced(stats@[j], times@, j),
            delays_fit(after@),
        decreases stats@.len() - i,
    {
        let stat: TrackStat = stats[i];
        assert(stat == stats@[i as int]);
        if i == first {
            after.push(TrackStat { win: stat.win + 1, ..stat });
        } else {
            let elapsed: u64 = times[i] - times[first];
            assert(stat.delay + elapsed <= (stat.delay_count + 1) * u64::MAX) by (nonlinear_arith)
                requires
                    stat.delay <= stat.delay_count * u64::MAX,
                    elapsed <= u64::MAX,
            ;
            assert((stat.delay_count + 1) * u64::MAX <= u128::MAX) by (nonlinear_arith)
                requires
                    stat.delay_count <= u32::MAX,
            ;
            after.push(
                TrackStat {
                    win: stat.win,
                    delay: stat.delay + elapsed as u128,
                    delay_count: stat.delay_count + 1,
                },
            );
        }
        i = i + 1;
    }
    assert(after@ =~= raced_all(stats@, times@));
    after
}

/// The row without any time.
fn empty_row(total: usize) -> (r: Vec<Option<u64>>)
    ensures
        r@ == Seq::new(total as nat, |i: int| None::<u64>),
{
    let mut row: Vec<Option<u64>> = Vec::new();
    let mut i: usize = 0;
    while i < total
        invariant
            i <= total,
            row@.len() == i,
            forall|j: int| 0 <= j < i ==> #[trigger] row@[j] is None,
        decreases total - i,
    {
        row.push(None);
        i = i + 1;
    }
    assert(row@ =~= Seq::new(total as nat, |i: int| None::<u64>));
    row
}

/// Where what is tracked in the slot is; the number of entries, where it is nowhere.
fn find_entry(entries: &Vec<TrackEntry>, slot: Slot, track: ConfigTrack) -> (r: usize)
    ensures
        r <= entries@.len(),
        r < entries@.len() ==> entries@[r as int].slot == slot && entries@[r as int].track == track,
        forall|i: int|
            0 <= i < r ==> (#[trigger] entries@[i].slot, entries@[i].track) != (slot, track),
{
    let mut i: usize = 0;
    while i < entries.len()
        invariant
            i <= entries@.len(),
            forall|j: int|
                0 <= j < i ==> (#[trigger] entries@[j].slot, entries@[j].track) != (slot, track),
        decreases entries@.len() - i,
    {
        if entries[i].slot == slot && entries[i].track == track {
            return i;
        }
        i = i + 1;
    }
    i
}

/// The entries after the row of what is tracked in the slot was replaced, or added.
fn put_row(
    entries: &mut Vec<TrackEntry>,
    at: usize,
    slot: Slot,
    track: ConfigTrack,
    row: Vec<Option<u64>>,
    total: usize,
)
    requires
        entries_fit(old(entries)@, total as nat),
        row@.len() == total,
        at <= old(entries)@.len(),
        at < old(entries)@.len() ==> old(entries)@[at as int].slot == slot && old(
            entries,
        )@[at as int].track == track,
        forall|i: int|
            0 <= i < at ==> (#[trigger] old(entries)@[i].slot, old(entries)@[i].track) != (
                slot,
                track,
            ),
    ensures
        entries_fit(final(entries)@, total as nat),
        seen_all(final(entries)@) == seen_all(old(entries)@).insert((slot, track), row@),
{
    let ghost before = entries@;
    let ghost key = (slot, track);
    let entry = TrackEntry { slot, track, times: row };
    let ghost e = entry;
    if at < entries.len() {
        entries.set(at, entry);
        proof {
            let after = entries@;
            assert(after == before.update(at as int, e));
            assert forall|j: int| at < j < after.len() implies (
                #[trigger] after[j].slot,
                after[j].track,
            ) != (after[at as int].slot, after[at as int].track) by {
                assert(after[j] == before[j]);
                assert((before[at as int].slot, before[at as int].track) != (
                    before[j].slot,
                    before[j].track,
                ));
            }
            lemma_seen(after, at as int);
            assert forall|i: int, j: int| 0 <= i < j < after.len() implies (
                #[trigger] after[i].slot,
                after[i].track,
            ) != (#[trigger] after[j].slot, after[j].track) by {
                assert((before[i].slot, before[i].track) != (before[j].slot, before[j].track));
            }
            assert forall|k: (Slot, ConfigTrack)| k != key implies #[trigger] seen(after, k) == seen(
                before,
                k,
            ) by {
                lemma_seen_update(before, at as int, e, k);
            }
            assert(seen_all(after) =~= seen_all(before).insert(key, row@));
        }
    } else {
        entries.push(entry);
        proof {
            let after = entries@;
            assert(after.drop_last() =~= before);
            assert forall|i: int, j: int| 0 <= i < j < after.len() implies (
                #[trigger] after[i].slot,
                after[i].track,
            ) != (#[trigger] after[j].slot, after[j].track) by {
                assert(after[i] == before[i]);
                if j < before.len() {
                    assert((before[i].slot, before[i].track) != (before[j].slot, before[j].track));
                } else {
                    assert((before[i].slot, before[i].track) != (slot, track));
                }
            }
            assert(seen_all(after) =~= seen_all(before).insert(key, row@));
        }
    }
}

impl TrackStorage {
    /// Each entry has a place for each source, and no delay is more than there can be.
    #[verifier::type_invariant]
    spec fn well_formed(&self) -> bool {
        &&& entries_fit(self.entries@, self.stats@.len())
        &&& delays_fit(self.stats@)
    }

    /// Nothing was tracked yet, of the number of sources.
    pub fn new(total: usize) -> (r: TrackStorage)
        ensures
            is_fresh(r@, total as nat),
            r@.times == Map::<(Slot, ConfigTrack), Seq<Option<u64>>>::empty(),
            r@.stats == Seq::new(
                total as nat,
                |i: int| TrackStat { win: 0, delay: 0, delay_count: 0 },
            ),
    {
        let mut stats: Vec<TrackStat> = Vec::new();
        let mut i: usize = 0;
        while i < total
            invariant
                i <= total,
                stats@.len() == i,
                forall|j: int|
                    0 <= j < i ==> #[trigger] stats@[j] == (TrackStat {
                        win: 0,
                        delay: 0,
                        delay_count: 0,
                    }),
            decreases total - i,
        {
            stats.push(TrackStat { win: 0, delay: 0, delay_count: 0 });
            i = i + 1;
        }
        let r = TrackStorage { entries: Vec::new(), stats };
        assert(r@.times =~= Map::<(Slot, ConfigTrack), Seq<Option<u64>>>::empty());
        assert(r@.stats =~= Seq::new(
            total as nat,
            |i: int| TrackStat { win: 0, delay: 0, delay_count: 0 },
        ));
        r
    }

    /// How many sources there are.
    pub fn total(&self) -> (r: usize)
        ensures
            r == self@.stats.len(),
    {
        self.stats.len()
    }

    /// How the source did.
    pub fn stat(&self, source: usize) -> (r: Option<TrackStat>)
        ensures
            r == if source < self@.stats.len() {
                Some(self@.stats[source as int])
            } else {
                None
            },
    {
        if source < self.stats.len() {
            Some(self.stats[source])
        } else {
            None
        }
    }

    /// The source told of what is tracked in the slot, at the time. Where all sources did, they race.
    pub fn add(&mut self, slot: Slot, track: ConfigTrack, source: usize, ts: u64) -> (r: Option<Race>)
        requires
            source < old(self)@.stats.len(),
            has_room(old(self)@.stats, 1),
        ensures
            final(self)@ == added(old(self)@, slot, track, source as int, ts),
            ({
                let row = new_row(old(self)@, (slot, track), source as int, ts);
                if complete(row) {
                    r is Some && r->Some_0.is(RaceView { slot, track, times: all_times(row) })
                } else {
                    r is None
                }
            }),
    {
        proof {
            use_type_invariant(&*self);
        }
        let ghost m = self@;
        let total: usize = self.stats.len();
        let at: usize = find_entry(&self.entries, slot, track);
        let mut row: Vec<Option<u64>> = empty_row(total);
        if at < self.entries.len() {
            let mut i: usize = 0;
            while i < total
                invariant
                    i <= total,
                    at < self.entries@.len(),
                    self.entries@[at as int].times@.len() == total,
                    row@.len() == total,
                    forall|j: int| 0 <= j < i ==> #[trigger] row@[j] == self.entries@[at as int].times@[j],
                decreases total - i,
            {
                row.set(i, self.entries[at].times[i]);
                i = i + 1;
            }
            proof {
                assert(row@ =~= self.entries@[at as int].times@);
                assert forall|j: int| at < j < self.entries@.len() implies (
                    #[trigger] self.entries@[j].slot,
                    self.entries@[j].track,
                ) != (self.entries@[at as int].slot, self.entries@[at as int].track) by {
                    assert((self.entries@[at as int].slot, self.entries@[at as int].track) != (
                        self.entries@[j].slot,
                        self.entries@[j].track,
                    ));
                }
                lemma_seen(self.entries@, at as int);
            }
        } else {
            proof {
                lemma_unseen(self.entries@, (slot, track));
            }
        }
        assert(row@ == row_at(m, (slot, track)));
        row.set(source, Some(ts));
        assert(row@ == new_row(m, (slot, track), source as int, ts));
        let mut stats: Vec<TrackStat> = Vec::new();
        let mut entries: Vec<TrackEntry> = Vec::new();
        std::mem::swap(&mut entries, &mut self.entries);
        let times = take_times(&row);
        put_row(&mut entries, at, slot, track, row, total);
        match times {
            Some(times) => {
                let first: usize = find_best(&times);
                stats = run_race(&self.stats, &times, first);
                *self = TrackStorage { entries, stats };
                Some(Race { slot, track, best: first, times })
            },
            None => {
                self.entries = entries;
                None
            },
        }
    }

    /// Forgets what was tracked before the slot.
    pub fn clear(&mut self, finalized: Slot)
        ensures
            final(self)@ == cleared(old(self)@, finalized),
    {
        proof {
            use_type_invariant(&*self);
        }
        let ghost m = self@;
        let ghost whole = self.entries@;
        let ghost total = self.stats@.len();
        let mut entries: Vec<TrackEntry> = Vec::new();
        std::mem::swap(&mut entries, &mut self.entries);
        let mut kept: Vec<TrackEntry> = Vec::new();
        assert(whole.take(0) =~= Seq::empty());
        for entry in iter: entries
            invariant
                iter.seq() == whole,
                entries_fit(whole, total),
                entries_fit(kept@, total),
                forall|key: (Slot, ConfigTrack)| #[trigger]
                    seen(kept@, key) == seen_from(whole.take(iter.index() as int), finalized, key),
                forall|i: int|
                    0 <= i < kept@.len() ==> whole.take(iter.index() as int).contains(
                        #[trigger] kept@[i],
                    ),
        {
            let ghost k = iter.index() as int;
            let ghost before = kept@;
            proof {
                assert(whole.take(k + 1).drop_last() =~= whole.take(k));
                assert(whole.take(k + 1).last() == entry);
                assert(whole.take(k + 1)[k] == entry);
                assert forall|e: TrackEntry| whole.take(k).contains(e) implies #[trigger] whole.take(
                    k + 1,
                ).contains(e) by {
                    let w = whole.take(k).index_of(e);
                    assert(whole.take(k + 1)[w] == e);
                }
            }
            if entry.slot >= finalized {
                kept.push(entry);
                proof {
                    assert(kept@.drop_last() =~= before);
                    assert forall|i: int, j: int| 0 <= i < j < kept@.len() implies (
                        #[trigger] kept@[i].slot,
                        kept@[i].track,
                    ) != (#[trigger] kept@[j].slot, kept@[j].track) by {
                        assert(kept@[i] == before[i]);
                        if j < before.len() {
                            assert((before[i].slot, before[i].track) != (
                                before[j].slot,
                                before[j].track,
                            ));
                        } else {
                            assert(whole.take(k).contains(before[i]));
                            let w = whole.take(k).index_of(before[i]);
                            assert((whole[w].slot, whole[w].track) != (whole[k].slot, whole[k].track));
                        }
                    }
                    assert forall|i: int| 0 <= i < kept@.len() implies whole.take(k + 1).contains(
                        #[trigger] kept@[i],
                    ) by {
                        if i < before.len() {
                            assert(kept@[i] == before[i]);
                            assert(whole.take(k).contains(before[i]));
                        }
                    }
                }
            }
            proof {
                assert forall|key: (Slot, ConfigTrack)| #[trigger]
                    seen(kept@, key) == seen_from(whole.take(k + 1), finalized, key) by {
                    assert(seen(before, key) == seen_from(whole.take(k), finalized, key));
                }
            }
        }
        assert(whole.take(whole.len() as int) =~= whole);
        self.entries = kept;
        proof {
            let after = self.entries@;
            assert forall|key: (Slot, ConfigTrack)|
                cleared(m, finalized).times.contains_key(key) <==> #[trigger] self@.times.contains_key(
                    key,
                ) by {
                assert(seen(after, key) == seen_from(whole, finalized, key));
            }
            assert forall|key: (Slot, ConfigTrack)| #[trigger]
                self@.times.contains_key(key) implies self@.times[key] == cleared(
                m,
                finalized,
            ).times[key] by {
                assert(seen(after, key) == seen_from(whole, finalized, key));
            }
        }
        assert(self@.times =~= cleared(m, finalized).times);
    }
}

/// When each source told of what is tracked, where that was from the slot on.
spec fn seen_from(entries: Seq<TrackEntry>, finalized: Slot, key: (Slot, ConfigTrack)) -> Option<
    Seq<Option<u64>>,
> {
    if key.0 >= finalized {
        seen(entries, key)
    } else {
        None
    }
}

/// Whether the update says that the slot is finalized.
pub open spec fn finalized_slot(update: UpdateView) -> Option<Slot> {
    match update {
        UpdateView::Slot(m) => if m.status == 2 {
            Some(m.slot)
        } else {
            None
        },
        _ => None,
    }
}

/// After the source sent the update, which may be several things that are tracked.
pub open spec fn after_update(
    m: TrackView,
    tracks: Seq<ConfigTrack>,
    update: UpdateView,
    source: int,
    ts: u64,
) -> TrackView
    decreases tracks.len(),
{
    if tracks.len() == 0 {
        m
    } else {
        let before = after_update(m, tracks.drop_last(), update, source, ts);
        match matched(tracks.last(), update) {
            Some(slot) => added(before, slot, tracks.last(), source, ts),
            None => before,
        }
    }
}

/// The races that came of the update.
pub open spec fn races(
    m: TrackView,
    tracks: Seq<ConfigTrack>,
    update: UpdateView,
    source: int,
    ts: u64,
) -> Seq<RaceView>
    decreases tracks.len(),
{
    if tracks.len() == 0 {
        Seq::empty()
    } else {
        let before = races(m, tracks.drop_last(), update, source, ts);
        match matched(tracks.last(), update) {
            Some(slot) => {
                let row = new_row(
                    after_update(m, tracks.drop_last(), update, source, ts),
                    (slot, tracks.last()),
                    source,
                    ts,
                );
                if complete(row) {
                    before.push(RaceView { slot, track: tracks.last(), times: all_times(row) })
                } else {
                    before
                }
            },
            None => before,
        }
    }
}

/// Whether these are the races.
pub open spec fn are_races(shown: Seq<Race>, races: Seq<RaceView>) -> bool {
    &&& shown.len() == races.len()
    &&& forall|i: int| 0 <= i < races.len() ==> (#[trigger] shown[i]).is(races[i])
}

proof fn lemma_room(m: TrackView, slot: Slot, track: ConfigTrack, source: int, ts: u64, n: nat)
    requires
        has_room(m.stats, n + 1),
    ensures
        has_room(added(m, slot, track, source, ts).stats, n),
        added(m, slot, track, source, ts).stats.len() == m.stats.len(),
{
    let after = added(m, slot, track, source, ts).stats;
    assert forall|i: int| 0 <= i < after.len() implies (#[trigger] after[i]).win + n <= u64::MAX
        && after[i].delay_count + n <= u32::MAX by {
        assert(m.stats[i].win + (n + 1) <= u64::MAX);
    }
}

impl TrackStorage {
    /// The source sent the update, at the time. Where that says that a slot is finalized, what was
    /// tracked before it is forgotten.
    pub fn on_update(
        &mut self,
        tracks: &Vec<ConfigTrack>,
        update: &UpdateOneof,
        source: usize,
        ts: u64,
    ) -> (r: Vec<Race>)
        requires
            source < old(self)@.stats.len(),
            has_room(old(self)@.stats, tracks@.len()),
        ensures
            final(self)@ == match finalized_slot(update@) {
                Some(slot) => cleared(
                    after_update(old(self)@, tracks@, update@, source as int, ts),
                    slot,
                ),
                None => after_update(old(self)@, tracks@, update@, source as int, ts),
            },
            final(self)@ == handled(old(self)@, tracks@, update@, source as int, ts),
            are_races(r@, races(old(self)@, tracks@, update@, source as int, ts)),
    {
        let ghost m = self@;
        let ghost u = update@;
        let ghost src = source as int;
        let mut found: Vec<Race> = Vec::new();
        let mut i: usize = 0;
        assert(tracks@.take(0) =~= Seq::empty());
        while i < tracks.len()
            invariant
                i <= tracks@.len(),
                u == update@,
                src == source,
                source < self@.stats.len(),
                has_room(self@.stats, (tracks@.len() - i) as nat),
                self@ == after_update(m, tracks@.take(i as int), u, src, ts),
                are_races(found@, races(m, tracks@.take(i as int), u, src, ts)),
            decreases tracks@.len() - i,
        {
            let track: ConfigTrack = tracks[i];
            proof {
                assert(tracks@.take(i + 1).drop_last() =~= tracks@.take(i as int));
                assert(tracks@.take(i + 1).last() == track);
            }
            if let Some(slot) = track.matches(update) {
                proof {
                    lemma_room(self@, slot, track, src, ts, (tracks@.len() - i - 1) as nat);
                    assert forall|k: int| 0 <= k < self@.stats.len() implies (
                    #[trigger] self@.stats[k]).win + 1 <= u64::MAX && self@.stats[k].delay_count + 1
                        <= u32::MAX by {
                        assert(self@.stats[k].win + (tracks@.len() - i) as nat <= u64::MAX);
                    }
                }
                if let Some(race) = self.add(slot, track, source, ts) {
                    found.push(race);
                }
            } else {
                proof {
                    assert forall|k: int| 0 <= k < self@.stats.len() implies (
                    #[trigger] self@.stats[k]).win + (tracks@.len() - i - 1) as nat <= u64::MAX
                        && self@.stats[k].delay_count + (tracks@.len() - i - 1) as nat
                        <= u32::MAX by {
                        assert(self@.stats[k].win + (tracks@.len() - i) as nat <= u64::MAX);
                    }
                }
            }
            i = i + 1;
        }
        assert(tracks@.take(i as int) =~= tracks@);
        if let UpdateOneof::Slot(m) = update {
            if m.status == 2 {
                self.clear(m.slot);
            }
        }
        found
    }
}

// ---------------------------------------------------------------------------------------------
// How the sources did, as it is shown
// ---------------------------------------------------------------------------------------------

/// The number in decimal, zeros before it where it is shorter than the width.
pub open spec fn padded(n: nat, width: nat) -> Seq<char> {
    let digits = text::decimal(n);
    Seq::new(
        if digits.len() < width {
            (width - digits.len()) as nat
        } else {
            0
        },
        |i: int| '0',
    ) + digits
}

/// The number in decimal, zeros before it where it is shorter than the width.
fn pad(n: u64, width: usize) -> (r: String)
    ensures
        r@ == padded(n as nat, width as nat),
{
    let digits = text::decimal_text(n);
    let len: usize = vstd::string::StrSliceExecFns::unicode_len(digits.as_str());
    let mut text: String = String::new();
    let mut i: usize = len;
    let ghost count: nat = if len < width {
        (width - len) as nat
    } else {
        0
    };
    proof {
        reveal_strlit("0");
        assert(text@ =~= Seq::new(0, |i: int| '0'));
    }
    while i < width
        invariant
            len <= i,
            i <= width || i == len,
            text@ == Seq::new((i - len) as nat, |i: int| '0'),
            "0"@ == seq!['0'],
        decreases width - i,
    {
        let ghost before = text@;
        text.append("0");
        assert(text@ =~= Seq::new((i + 1 - len) as nat, |i: int| '0'));
        i = i + 1;
    }
    text.append(digits.as_str());
    text
}

/// A delay, in nanoseconds, as it is shown: seconds and microseconds.
pub open spec fn delay_text(nanos: nat) -> Seq<char> {
    "+"@ + padded(nanos / 1_000_000_000, 2) + "."@ + padded(nanos % 1_000_000_000 / 1_000, 6)
        + "s"@
}

/// A delay, in nanoseconds, as it is shown.
pub fn format_delay(nanos: u64) -> (r: String)
    ensures
        r@ == delay_text(nanos as nat),
{
    let mut text: String = "+".to_owned();
    text.append(pad(nanos / 1_000_000_000, 2).as_str());
    text.append(".");
    text.append(pad(nanos % 1_000_000_000 / 1_000, 6).as_str());
    text.append("s");
    text
}

/// How late the source was on average when it was not first.
pub open spec fn average(stat: TrackStat) -> nat {
    if stat.delay_count == 0 {
        0
    } else {
        stat.delay as nat / stat.delay_count as nat
    }
}

/// A padded number is at least as wide as asked for, no wider than it has to be, and still the number.
pub proof fn law_padded(n: nat, width: nat)
    ensures
        padded(n, width).len() == if text::decimal(n).len() < width {
            width
        } else {
            text::decimal(n).len()
        },
        text::digits_value(padded(n, width)) == Some(n),
        !padded(n, width).contains('.'),
{
    text::law_decimal(n);
    let digits = text::decimal(n);
    let zeros: nat = if digits.len() < width {
        (width - digits.len()) as nat
    } else {
        0
    };
    text::law_zeros(digits, zeros);
    assert(padded(n, width) =~= Seq::new(zeros, |i: int| '0') + digits);
    assert forall|i: int| 0 <= i < padded(n, width).len() implies padded(n, width)[i] != '.' by {
        if i >= zeros {
            assert(padded(n, width)[i] == digits[i - zeros]);
        }
    }
}

/// A delay is shown as whole seconds and the microseconds beyond them, which together are as many
/// microseconds as it has.
pub proof fn law_delay_text(nanos: nat)
    ensures
        ({
            let shown = delay_text(nanos);
            let inner = shown.subrange(1, shown.len() - 1);
            &&& shown[0] == '+'
            &&& shown.last() == 's'
            &&& text::halves(inner, '.') matches Some((seconds, micros))
            &&& seconds.len() >= 2
            &&& micros.len() == 6
            &&& text::digits_value(seconds) matches Some(s)
            &&& text::digits_value(micros) matches Some(u)
            &&& s * 1_000_000 + u == nanos / 1000
        }),
{
    reveal_strlit("+");
    reveal_strlit(".");
    reveal_strlit("s");
    let s = nanos / 1_000_000_000;
    let u = nanos % 1_000_000_000 / 1_000;
    law_padded(s, 2);
    law_padded(u, 6);
    let shown = delay_text(nanos);
    assert(shown.subrange(1, shown.len() - 1) =~= padded(s, 2).push('.') + padded(u, 6));
    text::law_joined(padded(s, 2), '.', padded(u, 6));
    assert(u < 1_000_000 && s * 1_000_000 + u == nanos / 1000) by (nonlinear_arith)
        requires
            s == nanos / 1_000_000_000,
            u == nanos % 1_000_000_000 / 1_000,
    ;
    lemma_six(u);
}

proof fn lemma_six(u: nat)
    requires
        u < 1_000_000,
    ensures
        text::decimal(u).len() <= 6,
{
    reveal_with_fuel(text::decimal, 7);
}

impl TrackStorage {
    /// How the source did, as it is shown.
    pub fn stat_message(&self, source: usize) -> (r: String)
        requires
            source < self@.stats.len(),
        ensures
            r@ == stat_text(self@.stats[source as int]),
            r@ == "win "@ + padded(self@.stats[source as int].win as nat, 10) + " | avg delay "@
                + delay_text(average(self@.stats[source as int])),
    {
        proof {
            use_type_invariant(self);
        }
        let stat: TrackStat = self.stats[source];
        assert(stat == self.stats@[source as int]);
        let avg: u64 = if stat.delay_count == 0 {
            0
        } else {
            let count: u128 = stat.delay_count as u128;
            let avg: u128 = stat.delay / count;
            assert(avg <= u64::MAX) by (nonlinear_arith)
                requires
                    count > 0,
                    stat.delay <= count * u64::MAX,
                    avg == stat.delay / count,
            ;
            avg as u64
        };
        let mut text: String = "win ".to_owned();
        text.append(pad(stat.win, 10).as_str());
        text.append(" | avg delay ");
        text.append(format_delay(avg).as_str());
        text
    }
}

/// None of the sources has told.
pub open spec fn untold(sources: nat) -> Seq<Option<u64>> {
    Seq::new(sources, |i: int| None)
}

/// Whether each of the sources has told.
pub open spec fn all_told(row: Seq<Option<u64>>) -> bool {
    forall|i: int| 0 <= i < row.len() ==> (#[trigger] row[i]) is Some
}

/// With one more track, one more race is told of, where the update is of that track and every source has
/// now told of the slot: the race of that slot, with the time of each source. Else none is.
pub proof fn law_races_told(
    m: TrackView,
    tracks: Seq<ConfigTrack>,
    track: ConfigTrack,
    update: UpdateView,
    source: int,
    ts: u64,
)
    ensures
        ({
            let before = after_update(m, tracks, update, source, ts);
            let told = races(m, tracks, update, source, ts);
            let more = races(m, tracks.push(track), update, source, ts);
            match matched(track, update) {
                None => more == told,
                Some(slot) => {
                    let known = if before.times.contains_key((slot, track)) {
                        before.times[(slot, track)]
                    } else {
                        untold(before.stats.len())
                    };
                    let row = known.update(source, Some(ts));
                    &&& all_told(row) ==> {
                        &&& more.len() == told.len() + 1
                        &&& more.drop_last() == told
                        &&& more.last().slot == slot
                        &&& more.last().track == track
                        &&& more.last().times.len() == row.len()
                        &&& forall|i: int|
                            0 <= i < row.len() ==> Some(#[trigger] more.last().times[i]) == row[i]
                    }
                    &&& !all_told(row) ==> more == told
                },
            }
        }),
{
    assert(tracks.push(track).drop_last() =~= tracks);
    let told = races(m, tracks, update, source, ts);
    let more = races(m, tracks.push(track), update, source, ts);
    if let Some(slot) = matched(track, update) {
        let before = after_update(m, tracks, update, source, ts);
        let row = new_row(before, (slot, track), source, ts);
        let known = if before.times.contains_key((slot, track)) {
            before.times[(slot, track)]
        } else {
            untold(before.stats.len())
        };
        assert(known =~= row_at(before, (slot, track)));
        assert(known.update(source, Some(ts)) == row);
        assert(all_told(row) == complete(row));
        if complete(row) {
            assert(more.drop_last() =~= told);
            assert forall|i: int| 0 <= i < row.len() implies Some(#[trigger] more.last().times[i])
                == row[i] by {
                assert(row[i] is Some);
            }
        }
    }
}

/// A race that is told of names its slot, what was tracked, when each source told of it, and the first of
/// those that told of it earliest.
pub proof fn law_race_told(race: Race, view: RaceView, i: int)
    requires
        race.is(view),
        0 <= i < view.times.len(),
    ensures
        race.slot == view.slot,
        race.track == view.track,
        race.times@ == view.times,
        0 <= race.best < view.times.len(),
        view.times[race.best as int] <= view.times[i],
        i < race.best ==> view.times[race.best as int] < view.times[i],
{
    law_best(view.times);
}

/// What is said of what is tracked in a slot.
pub proof fn law_info_text(slot: Slot, index: u64)
    ensures
        info_text(ConfigTrack::BlockMeta, slot) == "Slot "@ + text::decimal(slot as nat)
            + " | BlockMeta"@,
        info_text(ConfigTrack::Transaction { index }, slot) == "Slot "@ + text::decimal(slot as nat) + (
        " | Transaction#"@ + text::decimal(index as nat)),
{
}

/// What is known after an update: what is tracked of it is added, and where it says that a slot is
/// finalized, what is before that is forgotten.
pub open spec fn handled(
    m: TrackView,
    tracks: Seq<ConfigTrack>,
    update: UpdateView,
    source: int,
    ts: u64,
) -> TrackView {
    match finalized_slot(update) {
        Some(slot) => cleared(after_update(m, tracks, update, source, ts), slot),
        None => after_update(m, tracks, update, source, ts),
    }
}

/// What comes of an update is what its tracks add, and a finalized slot forgets all before it and nothing
/// else. How the sources did is never forgotten.
pub proof fn law_handled(
    m: TrackView,
    tracks: Seq<ConfigTrack>,
    update: UpdateView,
    source: int,
    ts: u64,
    key: (Slot, ConfigTrack),
)
    ensures
        ({
            let after = after_update(m, tracks, update, source, ts);
            let h = handled(m, tracks, update, source, ts);
            &&& h.stats == after.stats
            &&& match update {
                UpdateView::Slot(s) => if s.status == 2 {
                    &&& h.times.contains_key(key) <==> after.times.contains_key(key) && key.0 >= s.slot
                    &&& h.times.contains_key(key) ==> h.times[key] == after.times[key]
                } else {
                    h == after
                },
                _ => h == after,
            }
        }),
{
    if let UpdateView::Slot(s) = update {
        law_clear(after_update(m, tracks, update, source, ts), s.slot, s.slot);
    }
}

/// How a source did, as it is written.
pub open spec fn stat_text(stat: TrackStat) -> Seq<char> {
    "win "@ + padded(stat.win as nat, 10) + " | avg delay "@ + delay_text(average(stat))
}

/// How a source did is written with how often it won, and with how late it was on average.
pub proof fn law_stat_text(stat: TrackStat)
    ensures
        stat_text(stat) == "win "@ + padded(stat.win as nat, 10) + " | avg delay "@ + delay_text(
            if stat.delay_count == 0 {
                0
            } else {
                stat.delay as nat / stat.delay_count as nat
            },
        ),
{
}

/// Whether nothing is known yet of so many sources.
pub open spec fn is_fresh(m: TrackView, total: nat) -> bool {
    &&& m.times == Map::<(Slot, ConfigTrack), Seq<Option<u64>>>::empty()
    &&& m.stats.len() == total
    &&& forall|i: int|
        0 <= i < total ==> #[trigger] m.stats[i] == (TrackStat { win: 0, delay: 0, delay_count: 0 })
}

/// At first no source has won or lost, and nothing was told of.
pub proof fn law_fresh(m: TrackView, total: nat, i: int, key: (Slot, ConfigTrack))
    requires
        is_fresh(m, total),
        0 <= i < total,
    ensures
        m.stats.len() == total,
        m.stats[i].win == 0,
        m.stats[i].delay == 0,
        m.stats[i].delay_count == 0,
        !m.times.contains_key(key),
{
}

/// A source is asked for accounts and for transactions where they are enabled, and in any case for the
/// statuses of slots, all of them and also between slots, for entries and for block metadata, as soon as
/// they are processed and from now on.
pub proof fn law_asks_for_tracked(r: SubscribeRequest, accounts: bool, transactions: bool)
    requires
        asks_for_tracked(r, accounts, transactions),
    ensures
        accounts <==> r.accounts@.len() == 1,
        !accounts <==> r.accounts@.len() == 0,
        transactions <==> r.transactions@.len() == 1,
        !transactions <==> r.transactions@.len() == 0,
        r.slots@.len() == 1,
        r.slots@[0].1.filter_by_commitment == Some(false),
        r.slots@[0].1.interslot_updates == Some(true),
        r.transactions_status@.len() == 0,
        r.blocks@.len() == 0,
        r.blocks_meta@.len() == 1,
        r.entry@.len() == 1,
        r.commitment == Some(0i32),
        r.accounts_data_slice@.len() == 0,
        r.from_slot is None,
{
}

} // verus!
