//! What comes of the updates of a stream: they are counted, or shown one by one.
use vstd::prelude::*;
use vstd::string::StringExecFns;

use crate::codec::Timestamp;
use crate::geyser;
use crate::geyser::SlotStatus;
use crate::pretty;
use crate::pretty::{
    PrettyAccount, PrettyBlock, PrettyBlockMeta, PrettyEntry, PrettyRichat, PrettySlot,
    PrettyTransaction, PrettyTransactionStatus, StreamError,
};
use crate::pubkey::Slot;
use crate::readings::Readings;
use crate::richat::{RichatView, UpdateOneofRichat};
use crate::stream::{StreamUpdate, StreamView, UpdateOneof, UpdateView};
use crate::text;

verus! {

// ---------------------------------------------------------------------------------------------
// Counting
// ---------------------------------------------------------------------------------------------

/// What updates are counted as.
#[derive(Debug, Clone, Copy, PartialEq, Eq, Structural)]
pub enum Line {
    Accounts,
    Slots,
    Transactions,
    TransactionsStatuses,
    Entries,
    BlocksMeta,
    Blocks,
    PingPong,
    DeshredTransactions,
    ContactInfo,
    BlocksFooter,
    UpdateParents,
}

/// How many lines there are.
pub const LINES: usize = 12;

impl Line {
    /// The place of the line.
    pub open spec fn place(self) -> int {
        match self {
            Line::Accounts => 0,
            Line::Slots => 1,
            Line::Transactions => 2,
            Line::TransactionsStatuses => 3,
            Line::Entries => 4,
            Line::BlocksMeta => 5,
            Line::Blocks => 6,
            Line::PingPong => 7,
            Line::DeshredTransactions => 8,
            Line::ContactInfo => 9,
            Line::BlocksFooter => 10,
            Line::UpdateParents => 11,
        }
    }

    /// The place of the line.
    pub fn index(&self) -> (r: usize)
        ensures
            r == self.place(),
            r < LINES,
    {
        match self {
            Line::Accounts => 0,
            Line::Slots => 1,
            Line::Transactions => 2,
            Line::TransactionsStatuses => 3,
            Line::Entries => 4,
            Line::BlocksMeta => 5,
            Line::Blocks => 6,
            Line::PingPong => 7,
            Line::DeshredTransactions => 8,
            Line::ContactInfo => 9,
            Line::BlocksFooter => 10,
            Line::UpdateParents => 11,
        }
    }
}

/// How many updates there were, and how many bytes.
#[derive(Debug, Clone, Copy, PartialEq, Eq, Structural)]
pub struct Count {
    pub messages: u64,
    pub bytes: u64,
}

/// The updates of all the counts.
pub open spec fn messages_of(counts: Seq<Count>) -> nat
    decreases counts.len(),
{
    if counts.len() == 0 {
        0
    } else {
        messages_of(counts.drop_last()) + counts.last().messages as nat
    }
}

/// The bytes of all the counts.
pub open spec fn bytes_of(counts: Seq<Count>) -> nat
    decreases counts.len(),
{
    if counts.len() == 0 {
        0
    } else {
        bytes_of(counts.drop_last()) + counts.last().bytes as nat
    }
}

proof fn lemma_counts(counts: Seq<Count>, i: int, count: Count)
    requires
        0 <= i < counts.len(),
    ensures
        messages_of(counts.update(i, count)) == messages_of(counts) - counts[i].messages
            + count.messages,
        bytes_of(counts.update(i, count)) == bytes_of(counts) - counts[i].bytes + count.bytes,
        counts[i].messages <= messages_of(counts),
        counts[i].bytes <= bytes_of(counts),
    decreases counts.len(),
{
    if i == counts.len() - 1 {
        assert(counts.update(i, count).drop_last() =~= counts.drop_last());
    } else {
        assert(counts.update(i, count).drop_last() =~= counts.drop_last().update(i, count));
        lemma_counts(counts.drop_last(), i, count);
    }
}

/// The latest slots.
#[derive(Debug, Clone, Copy, PartialEq, Eq, Structural)]
pub struct Tip {
    pub finalized: Option<Slot>,
    pub confirmed: Option<Slot>,
    pub processed: Option<Slot>,
}

impl Tip {
    /// The latest slots after the slot got the status.
    pub open spec fn after(self, slot: Slot, status: SlotStatus) -> Tip {
        match status {
            SlotStatus::SlotProcessed => Tip { processed: Some(slot), ..self },
            SlotStatus::SlotConfirmed => Tip { confirmed: Some(slot), ..self },
            SlotStatus::SlotFinalized => Tip { finalized: Some(slot), ..self },
            _ => self,
        }
    }
}

/// A slot as it is written.
pub open spec fn slot_text(slot: Option<Slot>) -> Seq<char> {
    match slot {
        Some(slot) => text::decimal(slot as nat),
        None => "null"@,
    }
}

/// A slot as it is written.
fn show_slot(slot: Option<Slot>) -> (r: String)
    ensures
        r@ == slot_text(slot),
{
    match slot {
        Some(slot) => text::decimal_text(slot),
        None => "null".to_owned(),
    }
}

impl Tip {
    /// The latest slots as they are written.
    pub fn message(&self) -> (r: String)
        ensures
            r@ == slot_text(self.finalized) + " / "@ + slot_text(self.confirmed) + " / "@
                + slot_text(self.processed),
    {
        let mut text = show_slot(self.finalized);
        text.append(" / ");
        text.append(show_slot(self.confirmed).as_str());
        text.append(" / ");
        text.append(show_slot(self.processed).as_str());
        text
    }
}

/// What the updates add up to.
#[derive(Debug)]
pub struct StreamStats {
    counts: Vec<Count>,
    total: Count,
    tip: Tip,
}

impl StreamStats {
    /// The total is that of all lines.
    #[verifier::type_invariant]
    spec fn adds_up(&self) -> bool {
        &&& self.counts@.len() == LINES
        &&& self.total.messages == messages_of(self.counts@)
        &&& self.total.bytes == bytes_of(self.counts@)
    }

    /// The counts of the lines.
    pub closed spec fn lines(&self) -> Seq<Count> {
        self.counts@
    }

    /// The count of all updates.
    pub closed spec fn sum(&self) -> Count {
        self.total
    }

    /// The latest slots.
    pub closed spec fn latest(&self) -> Tip {
        self.tip
    }

    /// Whether one more update of the length can be counted.
    pub open spec fn has_room(&self, len: u64) -> bool {
        self.sum().messages < u64::MAX && self.sum().bytes + len <= u64::MAX
    }

    /// Nothing was counted yet.
    pub fn new() -> (r: StreamStats)
        ensures
            r.lines() == Seq::new(LINES as nat, |i: int| Count { messages: 0, bytes: 0 }),
            r.sum() == (Count { messages: 0, bytes: 0 }),
            r.latest() == (Tip { finalized: None, confirmed: None, processed: None }),
    {
        let mut counts: Vec<Count> = Vec::new();
        let mut i: usize = 0;
        while i < LINES
            invariant
                i <= LINES,
                counts@.len() == i,
                forall|j: int|
                    0 <= j < i ==> #[trigger] counts@[j] == (Count { messages: 0, bytes: 0 }),
                messages_of(counts@) == 0,
                bytes_of(counts@) == 0,
            decreases LINES - i,
        {
            let ghost before = counts@;
            counts.push(Count { messages: 0, bytes: 0 });
            assert(counts@.drop_last() =~= before);
            i = i + 1;
        }
        let r = StreamStats {
            counts,
            total: Count { messages: 0, bytes: 0 },
            tip: Tip { finalized: None, confirmed: None, processed: None },
        };
        assert(r.lines() =~= Seq::new(LINES as nat, |i: int| Count { messages: 0, bytes: 0 }));
        r
    }

    /// The count of the line.
    pub fn line(&self, line: Line) -> (r: Count)
        ensures
            r == self.lines()[line.place()],
    {
        proof {
            use_type_invariant(self);
        }
        self.counts[line.index()]
    }

    /// The count of all updates, which is that of all lines.
    pub fn total(&self) -> (r: Count)
        ensures
            r == self.sum(),
            r.messages == messages_of(self.lines()),
            r.bytes == bytes_of(self.lines()),
    {
        proof {
            use_type_invariant(self);
        }
        self.total
    }

    /// The latest slots.
    pub fn tip(&self) -> (r: Tip)
        ensures
            r == self.latest(),
    {
        self.tip
    }

    /// Counts an update of the length.
    fn count(&mut self, line: Line, len: u64)
        requires
            old(self).has_room(len),
        ensures
            final(self).lines() == counted(old(self).lines(), line, len),
            final(self).sum() == one_more(old(self).sum(), len),
            final(self).latest() == old(self).latest(),
    {
        proof {
            use_type_invariant(&*self);
        }
        let i: usize = line.index();
        let before: Count = self.counts[i];
        let ghost whole = self.counts@;
        proof {
            lemma_counts(whole, i as int, one_more(before, len));
        }
        let count = Count { messages: before.messages + 1, bytes: before.bytes + len };
        let total = Count { messages: self.total.messages + 1, bytes: self.total.bytes + len };
        let mut counts: Vec<Count> = Vec::new();
        let mut j: usize = 0;
        while j < self.counts.len()
            invariant
                j <= self.counts@.len(),
                self.counts@ == whole,
                i < whole.len(),
                counts@.len() == j,
                forall|k: int|
                    0 <= k < j ==> #[trigger] counts@[k] == whole.update(i as int, count)[k],
            decreases self.counts@.len() - j,
        {
            if j == i {
                counts.push(count);
            } else {
                counts.push(self.counts[j]);
            }
            j = j + 1;
        }
        assert(counts@ =~= whole.update(i as int, count));
        *self = StreamStats { counts, total, tip: self.tip };
    }
}

/// The count after one more update of the length.
pub open spec fn one_more(count: Count, len: u64) -> Count {
    Count { messages: (count.messages + 1) as u64, bytes: (count.bytes + len) as u64 }
}

/// The counts after one more update of the length in the line.
pub open spec fn counted(counts: Seq<Count>, line: Line, len: u64) -> Seq<Count> {
    counts.update(line.place(), one_more(counts[line.place()], len))
}

// ---------------------------------------------------------------------------------------------
// One update
// ---------------------------------------------------------------------------------------------

/// What an update of the stream is counted as.
pub open spec fn geyser_line(m: UpdateView) -> Line {
    match m {
        UpdateView::Account(_) => Line::Accounts,
        UpdateView::Slot(_) => Line::Slots,
        UpdateView::Transaction { .. } => Line::Transactions,
        UpdateView::TransactionStatus(_) => Line::TransactionsStatuses,
        UpdateView::Entry(_) => Line::Entries,
        UpdateView::BlockMeta(_) => Line::BlocksMeta,
        UpdateView::Block(_) => Line::Blocks,
        UpdateView::Ping => Line::PingPong,
        UpdateView::Pong => Line::PingPong,
    }
}

/// What an update that is none of the stream is counted as.
pub open spec fn richat_line(m: RichatView) -> Line {
    match m {
        RichatView::DeshredTransaction(_) => Line::DeshredTransactions,
        RichatView::ContactInfo(_) => Line::ContactInfo,
        RichatView::ContactInfoRemoved { .. } => Line::ContactInfo,
        RichatView::BlockFooter(_) => Line::BlocksFooter,
        RichatView::EntryUpdateParent { .. } => Line::UpdateParents,
        RichatView::DeshredUpdateParent { .. } => Line::UpdateParents,
    }
}

/// An update as it is shown.
#[derive(Debug)]
pub enum PrettyUpdate {
    Account { account: PrettyAccount, is_startup: bool, slot: u64 },
    Slot(PrettySlot),
    Transaction { transaction: PrettyTransaction, slot: u64 },
    TransactionStatus(PrettyTransactionStatus),
    Entry(PrettyEntry),
    BlockMeta(PrettyBlockMeta),
    Block(PrettyBlock),
    Richat(PrettyRichat),
}

/// What to do about an update.
#[derive(Debug)]
pub enum StreamAction {
    /// Show the new count of the line, and the latest slots where they changed.
    Count { line: Line, tip: bool },
    /// Show the update.
    Print {
        kind: &'static str,
        created_at: Timestamp,
        filters: Vec<String>,
        value: PrettyUpdate,
    },
    /// Nothing.
    Skip,
    /// Say that there is no update, and stop.
    NoUpdate,
}

/// What the kind of the update is called. Pings and pongs are not shown.
pub open spec fn geyser_kind(m: UpdateView) -> &'static str {
    match m {
        UpdateView::Account(_) => "account",
        UpdateView::Slot(_) => "slot",
        UpdateView::Transaction { .. } => "transaction",
        UpdateView::TransactionStatus(_) => "transactionStatus",
        UpdateView::Entry(_) => "entry",
        UpdateView::BlockMeta(_) => "blockmeta",
        UpdateView::Block(_) => "block",
        UpdateView::Ping => "",
        UpdateView::Pong => "",
    }
}

/// Why the update cannot be shown, where it cannot.
pub open spec fn geyser_failure(m: UpdateView, readings: Readings) -> Option<StreamError> {
    match m {
        UpdateView::Account(m) => match m.account {
            Some(info) => pretty::account_failure(info),
            None => Some(StreamError::NoAccount),
        },
        UpdateView::Slot(m) => if geyser::slot_status_of(m.status) is None {
            Some(StreamError::InvalidStatus)
        } else {
            None
        },
        UpdateView::Transaction { transaction, .. } => match transaction {
            Some(info) => pretty::transaction_failure(info, readings),
            None => Some(StreamError::NoTransaction),
        },
        UpdateView::TransactionStatus(m) => pretty::status_failure(m, readings),
        UpdateView::Entry(m) => pretty::entry_failure(m),
        UpdateView::BlockMeta(m) => match pretty::shown_rewards(m.rewards, readings) {
            Ok(_) => None,
            Err(e) => Some(e),
        },
        UpdateView::Block(m) => pretty::block_failure(m, readings),
        UpdateView::Ping => None,
        UpdateView::Pong => None,
    }
}

impl PrettyUpdate {
    /// Whether this shows the update.
    pub open spec fn shows(&self, m: UpdateView, readings: Readings) -> bool {
        match (self, m) {
            (PrettyUpdate::Account { account, is_startup, slot }, UpdateView::Account(m)) => {
                &&& m.account is Some
                &&& account.shows(m.account->Some_0)
                &&& *is_startup == m.is_startup
                &&& *slot == m.slot
            },
            (PrettyUpdate::Slot(shown), UpdateView::Slot(m)) => shown.shows(m),
            (
                PrettyUpdate::Transaction { transaction, slot },
                UpdateView::Transaction { transaction: info, slot: s },
            ) => info is Some && transaction.shows(info->Some_0, readings) && *slot == s,
            (PrettyUpdate::TransactionStatus(shown), UpdateView::TransactionStatus(m)) => shown.shows(
                m,
                readings,
            ),
            (PrettyUpdate::Entry(shown), UpdateView::Entry(m)) => shown.shows(m),
            (PrettyUpdate::BlockMeta(shown), UpdateView::BlockMeta(m)) => pretty::shown_rewards(
                m.rewards,
                readings,
            ) is Ok && shown.shows(m, pretty::shown_rewards(m.rewards, readings)->Ok_0),
            (PrettyUpdate::Block(shown), UpdateView::Block(m)) => shown.shows(m, readings),
            _ => false,
        }
    }
}

/// The update of the stream as it is shown, unless it is a ping or a pong.
fn show_geyser(update: UpdateOneof, readings: &Readings) -> (r: Result<
    Option<(&'static str, PrettyUpdate)>,
    StreamError,
>)
    ensures
        match geyser_failure(update@, *readings) {
            Some(e) => r is Err && r->Err_0 == e,
            None => if update@ is Ping || update@ is Pong {
                r is Ok && r->Ok_0 is None
            } else {
                &&& r is Ok
                &&& r->Ok_0 is Some
                &&& r->Ok_0->Some_0.0 == geyser_kind(update@)
                &&& r->Ok_0->Some_0.1.shows(update@, *readings)
            },
        },
{
    match update {
        UpdateOneof::Account(m) => match m.account {
            Some(account) => match pretty::create_pretty_account(&account) {
                Ok(account) => Ok(
                    Some(
                        (
                            "account",
                            PrettyUpdate::Account {
                                account,
                                is_startup: m.is_startup,
                                slot: m.slot,
                            },
                        ),
                    ),
                ),
                Err(e) => Err(e),
            },
            None => Err(StreamError::NoAccount),
        },
        UpdateOneof::Slot(m) => match pretty::create_pretty_slot(m) {
            Ok(shown) => Ok(Some(("slot", PrettyUpdate::Slot(shown)))),
            Err(e) => Err(e),
        },
        UpdateOneof::Transaction(m) => match m.transaction {
            Some(tx) => match pretty::create_pretty_transaction(tx, readings) {
                Ok(transaction) => Ok(
                    Some(
                        ("transaction", PrettyUpdate::Transaction { transaction, slot: m.slot }),
                    ),
                ),
                Err(e) => Err(e),
            },
            None => Err(StreamError::NoTransaction),
        },
        UpdateOneof::TransactionStatus(m) => match pretty::create_pretty_transaction_status(
            m,
            readings,
        ) {
            Ok(shown) => Ok(Some(("transactionStatus", PrettyUpdate::TransactionStatus(shown)))),
            Err(e) => Err(e),
        },
        UpdateOneof::Entry(m) => match pretty::create_pretty_entry(&m) {
            Ok(shown) => Ok(Some(("entry", PrettyUpdate::Entry(shown)))),
            Err(e) => Err(e),
        },
        UpdateOneof::BlockMeta(m) => match pretty::create_pretty_blockmeta(m, readings) {
            Ok(shown) => Ok(Some(("blockmeta", PrettyUpdate::BlockMeta(shown)))),
            Err(e) => Err(e),
        },
        UpdateOneof::Block(m) => match pretty::create_pretty_block(m, readings) {
            Ok(shown) => Ok(Some(("block", PrettyUpdate::Block(shown)))),
            Err(e) => Err(e),
        },
        UpdateOneof::Ping => Ok(None),
        UpdateOneof::Pong => Ok(None),
    }
}

/// What is wrong with the time of an update, which the machine can hold or not.
pub open spec fn time_failure(created_at: Option<Timestamp>, held: bool) -> Option<StreamError> {
    match created_at {
        None => Some(StreamError::NoCreatedAt),
        Some(_) => if held {
            None
        } else {
            Some(StreamError::InvalidCreatedAt)
        },
    }
}

/// What comes of an update that is to be counted: the line, and the status where it is a slot. The
/// time of an update of the stream does not matter. Any other is `held` by the machine or not.
pub open spec fn line_of(m: StreamView, held: bool) -> Result<
    Option<(Line, Option<(Slot, SlotStatus)>)>,
    StreamError,
> {
    match m {
        StreamView::Richat { update, created_at } => match time_failure(created_at, held) {
            Some(e) => Err(e),
            None => match update {
                None => Ok(None),
                Some(m) => Ok(Some((richat_line(m), None))),
            },
        },
        StreamView::Geyser { update, .. } => match update {
            None => Ok(None),
            Some(UpdateView::Slot(m)) => match geyser::slot_status_of(m.status) {
                Some(status) => Ok(Some((Line::Slots, Some((m.slot, status))))),
                None => Err(StreamError::InvalidStatus),
            },
            Some(m) => Ok(Some((geyser_line(m), None))),
        },
    }
}

/// What comes of an update that is to be shown, whose time is `held` by the machine or not.
pub open spec fn shown(
    m: StreamView,
    held: bool,
    readings: Readings,
    r: Result<StreamAction, StreamError>,
) -> bool {
    match time_failure(m.created_at(), held) {
        Some(e) => r is Err && r->Err_0 == e,
        None => match m {
            StreamView::Richat { update, created_at: ts } => match update {
                None => r is Ok && r->Ok_0 is NoUpdate,
                Some(m) => match pretty::richat_failure(m, readings) {
                    Some(e) => r is Err && r->Err_0 == e,
                    None => {
                        &&& r is Ok
                        &&& r->Ok_0 matches StreamAction::Print { kind, created_at, filters, value }
                        &&& kind == pretty::richat_kind(m)
                        &&& Some(created_at) == ts
                        &&& filters@.len() == 0
                        &&& value matches PrettyUpdate::Richat(shown)
                        &&& shown.shows(m, readings)
                    },
                },
            },
            StreamView::Geyser { filters: names, update, created_at: ts } => match update {
                None => r is Ok && r->Ok_0 is NoUpdate,
                Some(m) => match geyser_failure(m, readings) {
                    Some(e) => r is Err && r->Err_0 == e,
                    None => if m is Ping || m is Pong {
                        r is Ok && r->Ok_0 is Skip
                    } else {
                        &&& r is Ok
                        &&& r->Ok_0 matches StreamAction::Print { kind, created_at, filters, value }
                        &&& kind == geyser_kind(m)
                        &&& Some(created_at) == ts
                        &&& geyser::text_each(filters@) == names
                        &&& value.shows(m, readings)
                    },
                },
            },
        },
    }
}

/// `std::time::SystemTime::try_from` on a `prost_types::Timestamp`: whether the machine can hold the
/// time. How far its times reach is left to the machine, but that none lies as far back as the smallest
/// number of seconds.
#[verifier::external_body]
fn holds_time(ts: &Timestamp) -> (r: bool)
    ensures
        ts.seconds == i64::MIN && ts.nanos < 1_000_000_000 ==> !r,
{
    let ts = prost_types::Timestamp { seconds: ts.seconds, nanos: ts.nanos };
    std::time::SystemTime::try_from(ts).is_ok()
}

/// What the update is to be shown as, where its time is `held` by the machine or not, and its parts were
/// read as in `readings`.
pub fn show_update(update: StreamUpdate, held: bool, readings: &Readings) -> (r: Result<
    StreamAction,
    StreamError,
>)
    ensures
        shown(update@, held, *readings, r),
{
    match update {
        StreamUpdate::Richat { update_oneof, created_at } => {
            let created_at = match created_at {
                Some(created_at) => created_at,
                None => return Err(StreamError::NoCreatedAt),
            };
            if !held {
                return Err(StreamError::InvalidCreatedAt);
            }
            let update = match update_oneof {
                Some(update) => update,
                None => return Ok(StreamAction::NoUpdate),
            };
            match pretty::create_pretty_richat(update, readings) {
                Ok((kind, value)) => Ok(
                    StreamAction::Print {
                        kind,
                        created_at,
                        filters: Vec::new(),
                        value: PrettyUpdate::Richat(value),
                    },
                ),
                Err(e) => Err(e),
            }
        },
        StreamUpdate::Geyser { filters, update_oneof, created_at } => {
            let created_at = match created_at {
                Some(created_at) => created_at,
                None => return Err(StreamError::NoCreatedAt),
            };
            if !held {
                return Err(StreamError::InvalidCreatedAt);
            }
            let update = match update_oneof {
                Some(update) => update,
                None => return Ok(StreamAction::NoUpdate),
            };
            match show_geyser(update, readings) {
                Ok(Some((kind, value))) => Ok(
                    StreamAction::Print { kind, created_at, filters, value },
                ),
                Ok(None) => Ok(StreamAction::Skip),
                Err(e) => Err(e),
            }
        },
    }
}

/// What an update is counted as, and the status where it is a slot.
fn find_line(update: &StreamUpdate, held: bool) -> (r: Result<
    Option<(Line, Option<(Slot, SlotStatus)>)>,
    StreamError,
>)
    ensures
        r == line_of(update@, held),
{
    match update {
        StreamUpdate::Richat { update_oneof, created_at } => {
            if created_at.is_none() {
                return Err(StreamError::NoCreatedAt);
            }
            if !held {
                return Err(StreamError::InvalidCreatedAt);
            }
            let line = match update_oneof {
                Some(UpdateOneofRichat::DeshredTransaction(_)) => Line::DeshredTransactions,
                Some(UpdateOneofRichat::ContactInfo(_)) => Line::ContactInfo,
                Some(UpdateOneofRichat::ContactInfoRemoved { .. }) => Line::ContactInfo,
                Some(UpdateOneofRichat::BlockFooter(_)) => Line::BlocksFooter,
                Some(UpdateOneofRichat::EntryUpdateParent(_)) => Line::UpdateParents,
                Some(UpdateOneofRichat::DeshredUpdateParent(_)) => Line::UpdateParents,
                None => return Ok(None),
            };
            Ok(Some((line, None)))
        },
        StreamUpdate::Geyser { update_oneof, .. } => {
            let line = match update_oneof {
                Some(UpdateOneof::Account(_)) => Line::Accounts,
                Some(UpdateOneof::Slot(m)) => {
                    return match SlotStatus::from_number(m.status) {
                        Some(status) => Ok(Some((Line::Slots, Some((m.slot, status))))),
                        None => Err(StreamError::InvalidStatus),
                    };
                },
                Some(UpdateOneof::Transaction(_)) => Line::Transactions,
                Some(UpdateOneof::TransactionStatus(_)) => Line::TransactionsStatuses,
                Some(UpdateOneof::Entry(_)) => Line::Entries,
                Some(UpdateOneof::BlockMeta(_)) => Line::BlocksMeta,
                Some(UpdateOneof::Block(_)) => Line::Blocks,
                Some(UpdateOneof::Ping) => Line::PingPong,
                Some(UpdateOneof::Pong) => Line::PingPong,
                None => return Ok(None),
            };
            Ok(Some((line, None)))
        },
    }
}

/// How an update of the length, whose time is `held` by the machine or not, is counted: what was
/// counted `before` it and `after` it.
pub open spec fn counts(
    before: StreamStats,
    after: StreamStats,
    m: StreamView,
    encoded_len: u64,
    held: bool,
    r: Result<StreamAction, StreamError>,
) -> bool {
    match line_of(m, held) {
        Err(e) => r is Err && r->Err_0 == e && after == before,
        Ok(None) => r is Ok && r->Ok_0 is NoUpdate && after == before,
        Ok(Some((line, slot))) => {
            &&& r is Ok
            &&& r->Ok_0 matches StreamAction::Count { line: l, tip }
            &&& l == line
            &&& after.lines() == counted(before.lines(), line, encoded_len)
            &&& after.sum() == one_more(before.sum(), encoded_len)
            &&& match slot {
                Some((slot, status)) => {
                    &&& after.latest() == before.latest().after(slot, status)
                    &&& tip == (status == SlotStatus::SlotProcessed || status
                        == SlotStatus::SlotConfirmed || status == SlotStatus::SlotFinalized)
                },
                None => after.latest() == before.latest() && !tip,
            }
        },
    }
}

/// How an update of the length, whose time is `held` by the machine or not, is counted or shown.
pub open spec fn handles(
    before: StreamStats,
    after: StreamStats,
    m: StreamView,
    encoded_len: u64,
    stats: bool,
    held: bool,
    readings: Readings,
    r: Result<StreamAction, StreamError>,
) -> bool {
    if stats {
        counts(before, after, m, encoded_len, held, r)
    } else {
        after == before && shown(m, held, readings, r)
    }
}

impl StreamStats {
    /// Counts an update of the length, whose time is `held` by the machine or not. What is no update
    /// is not counted.
    pub fn count_update(&mut self, update: &StreamUpdate, encoded_len: u64, held: bool) -> (r: Result<
        StreamAction,
        StreamError,
    >)
        requires
            old(self).has_room(encoded_len),
        ensures
            counts(*old(self), *final(self), update@, encoded_len, held, r),
    {
        let (line, slot) = match find_line(update, held) {
            Ok(Some(found)) => found,
            Ok(None) => return Ok(StreamAction::NoUpdate),
            Err(e) => return Err(e),
        };
        self.count(line, encoded_len);
        let mut changed: bool = false;
        if let Some((slot, status)) = slot {
            let mut tip: Tip = self.tip;
            match status {
                SlotStatus::SlotProcessed => {
                    tip = Tip { processed: Some(slot), ..tip };
                    changed = true;
                },
                SlotStatus::SlotConfirmed => {
                    tip = Tip { confirmed: Some(slot), ..tip };
                    changed = true;
                },
                SlotStatus::SlotFinalized => {
                    tip = Tip { finalized: Some(slot), ..tip };
                    changed = true;
                },
                _ => {},
            }
            proof {
                use_type_invariant(&*self);
            }
            self.tip = tip;
        }
        Ok(StreamAction::Count { line, tip: changed })
    }

    /// Counts an update of the length, or shows it, where its time is `held` by the machine or not.
    pub fn handle_timed(
        &mut self,
        update: StreamUpdate,
        encoded_len: u64,
        stats: bool,
        held: bool,
        readings: &Readings,
    ) -> (r: Result<StreamAction, StreamError>)
        requires
            stats ==> old(self).has_room(encoded_len),
        ensures
            handles(
                *old(self),
                *final(self),
                update@,
                encoded_len,
                stats,
                held,
                *readings,
                r,
            ),
    {
        if stats {
            self.count_update(&update, encoded_len, held)
        } else {
            show_update(update, held, readings)
        }
    }

    /// Counts an update of the length, or shows it. Whether the machine can hold its time, the machine
    /// decides.
    pub fn handle_update(
        &mut self,
        update: StreamUpdate,
        encoded_len: u64,
        stats: bool,
        readings: &Readings,
    ) -> (r: Result<StreamAction, StreamError>)
        requires
            stats ==> old(self).has_room(encoded_len),
        ensures
            exists|held: bool|
                {
                    &&& update@.created_at() matches Some(ts) ==> ts.seconds == i64::MIN && ts.nanos
                        < 1_000_000_000 ==> !held
                    &&& #[trigger] handles(
                        *old(self),
                        *final(self),
                        update@,
                        encoded_len,
                        stats,
                        held,
                        *readings,
                        r,
                    )
                },
    {
        let held: bool = match update.created_at() {
            Some(created_at) => holds_time(&created_at),
            None => false,
        };
        let ghost m = update@;
        let r = self.handle_timed(update, encoded_len, stats, held, readings);
        assert(handles(*old(self), *self, m, encoded_len, stats, held, *readings, r));
        r
    }
}

} // verus!
