//! Filters: which updates a subscriber gets, and what of them.
use std::ops::Range;
use std::sync::Arc;

use arrayvec::ArrayVec;
use vstd::prelude::*;

use crate::account;
use crate::account::{MessageAccount, MessageAccountView};
use crate::collections;
use crate::collections::{NameList, RangeList, UpdateList};
use crate::config;
use crate::config::{
    ConfigFilter, ConfigFilterAccounts, ConfigFilterAccountsDataSlice, ConfigFilterAccountsFilter,
    ConfigFilterAccountsFilterLamports, ConfigFilterBlocks, ConfigFilterCommitment,
    ConfigFilterSlots, ConfigFilterTransactions,
};
use crate::geyser::{CommitmentLevel, SlotStatus};
use crate::message::{
    Message, MessageBlock, MessageBlockMeta, MessageEntry, MessageRef, MessageSlot,
    MessageTransaction,
};
use crate::pubkey;
use crate::pubkey::{PubkeySet, Signature};

verus! {

// ---------------------------------------------------------------------------------------------
// Names
// ---------------------------------------------------------------------------------------------

/// The name of a filter, shared between the lists of filters that have one of this name.
#[derive(Debug)]
pub struct FilterName {
    name: Arc<String>,
}

impl View for FilterName {
    type V = Seq<char>;

    closed spec fn view(&self) -> Seq<char> {
        self.name@
    }
}

impl FilterName {
    /// The name.
    pub fn as_ref(&self) -> (r: &str)
        ensures
            r@ == self@,
    {
        self.name.as_str()
    }

    /// The same name, shared.
    pub fn share(&self) -> (r: FilterName)
        ensures
            r@ == self@,
    {
        FilterName { name: collections::share(&self.name) }
    }
}

/// The names that are in use.
#[derive(Debug)]
pub struct FilterNames {
    names: Vec<FilterName>,
}

/// The texts of `names`.
pub open spec fn name_texts(names: Seq<FilterName>) -> Seq<Seq<char>> {
    names.map_values(|n: FilterName| n@)
}

impl View for FilterNames {
    type V = Set<Seq<char>>;

    closed spec fn view(&self) -> Set<Seq<char>> {
        name_texts(self.names@).to_set()
    }
}

impl FilterNames {
    /// No name.
    pub fn new() -> (r: FilterNames)
        ensures
            r@ == Set::<Seq<char>>::empty(),
    {
        let r = FilterNames { names: Vec::new() };
        assert(r@ =~= Set::<Seq<char>>::empty());
        r
    }

    /// The name, from among those in use where it is one of them.
    pub fn get(&mut self, name: &str) -> (r: FilterName)
        ensures
            r@ == name@,
            final(self)@ == old(self)@.insert(name@),
    {
        let ghost before = name_texts(self.names@);
        let mut i: usize = 0;
        while i < self.names.len()
            invariant
                i <= self.names@.len(),
                *self == *old(self),
                before == name_texts(self.names@),
                before == name_texts(old(self).names@),
            decreases self.names@.len() - i,
        {
            if same_text(self.names[i].as_ref(), name) {
                assert(before[i as int] == name@);
                assert(self@ =~= old(self)@.insert(name@));
                return self.names[i].share();
            }
            i = i + 1;
        }
        let added = FilterName { name: Arc::new(name.to_owned()) };
        let shared = added.share();
        self.names.push(added);
        proof {
            let now = name_texts(self.names@);
            assert(now =~= before.push(name@));
            assert forall|t: Seq<char>| now.contains(t) <==> before.contains(t) || t == name@ by {
                if before.contains(t) {
                    let j = choose|j: int| 0 <= j < before.len() && before[j] == t;
                    assert(now[j] == t);
                }
                assert(now[now.len() - 1] == name@);
            }
            assert(self@ =~= old(self)@.insert(name@));
        }
        shared
    }
}

/// Whether two texts are the same.
pub fn same_text(a: &str, b: &str) -> (r: bool)
    ensures
        r == (a@ == b@),
{
    let r: bool = same_bytes(a.as_bytes(), b.as_bytes());
    proof {
        vstd::utf8::encode_utf8_decode_utf8(a@);
        vstd::utf8::encode_utf8_decode_utf8(b@);
    }
    r
}

/// Whether two runs of bytes are the same.
pub fn same_bytes(a: &[u8], b: &[u8]) -> (r: bool)
    ensures
        r == (a@ == b@),
{
    if a.len() != b.len() {
        return false;
    }
    let mut i: usize = 0;
    while i < a.len()
        invariant
            i <= a@.len(),
            a@.len() == b@.len(),
            forall|j: int| 0 <= j < i ==> a@[j] == b@[j],
        decreases a@.len() - i,
    {
        if a[i] != b[i] {
            assert(a@[i as int] != b@[i as int]);
            return false;
        }
        i = i + 1;
    }
    assert(a@ =~= b@);
    true
}

/// The names of the `filters` that `passes` holds of, in their order.
pub open spec fn matching<M>(filters: Seq<(Seq<char>, M)>, passes: spec_fn(M) -> bool) -> Seq<
    Seq<char>,
>
    decreases filters.len(),
{
    if filters.len() == 0 {
        Seq::empty()
    } else {
        let before = matching(filters.drop_last(), passes);
        if passes(filters.last().1) {
            before.push(filters.last().0)
        } else {
            before
        }
    }
}

// ---------------------------------------------------------------------------------------------
// Slots
// ---------------------------------------------------------------------------------------------

/// Which slot updates to pass.
#[derive(Debug, Clone, Copy, PartialEq, Eq, Structural)]
pub struct FilterSlotsInner {
    pub filter_by_commitment: bool,
    pub interslot_updates: bool,
}

/// Whether the flag is set.
pub open spec fn flag(v: Option<bool>) -> bool {
    v == Some(true)
}

/// What `config` asks for.
pub open spec fn slots_model(config: ConfigFilterSlots) -> FilterSlotsInner {
    FilterSlotsInner {
        filter_by_commitment: flag(config.filter_by_commitment),
        interslot_updates: flag(config.interslot_updates),
    }
}

/// Whether the status is one of the three that stand for a commitment.
pub open spec fn commitment_status(status: SlotStatus) -> Option<CommitmentLevel> {
    match status {
        SlotStatus::SlotProcessed => Some(CommitmentLevel::Processed),
        SlotStatus::SlotConfirmed => Some(CommitmentLevel::Confirmed),
        SlotStatus::SlotFinalized => Some(CommitmentLevel::Finalized),
        _ => None,
    }
}

impl FilterSlotsInner {
    /// Whether an update with the status passes at the commitment: a filter by commitment passes
    /// only the status that stands for it, and other statuses than those that stand for one pass
    /// only where interslot updates are asked for.
    pub open spec fn passes(self, status: SlotStatus, commitment: CommitmentLevel) -> bool {
        &&& self.filter_by_commitment ==> commitment_status(status) == Some(commitment)
        &&& self.interslot_updates || commitment_status(status) is Some
    }

    /// What `filter` asks for.
    pub fn new(filter: ConfigFilterSlots) -> (r: Self)
        ensures
            r == slots_model(filter),
    {
        FilterSlotsInner {
            filter_by_commitment: match filter.filter_by_commitment {
                Some(v) => v,
                None => false,
            },
            interslot_updates: match filter.interslot_updates {
                Some(v) => v,
                None => false,
            },
        }
    }

    /// Whether an update with the status passes at the commitment.
    pub fn is_match(&self, status: SlotStatus, commitment: CommitmentLevel) -> (r: bool)
        ensures
            r == self.passes(status, commitment),
    {
        (!self.filter_by_commitment || ((status == SlotStatus::SlotProcessed && commitment
            == CommitmentLevel::Processed) || (status == SlotStatus::SlotConfirmed && commitment
            == CommitmentLevel::Confirmed) || (status == SlotStatus::SlotFinalized && commitment
            == CommitmentLevel::Finalized))) && (self.interslot_updates || matches!(
            status,
            SlotStatus::SlotProcessed | SlotStatus::SlotConfirmed | SlotStatus::SlotFinalized
        ))
    }
}

/// Filters of slot updates.
#[derive(Debug)]
pub struct FilterSlots {
    filters: Vec<(FilterName, FilterSlotsInner)>,
}

impl View for FilterSlots {
    type V = Seq<(Seq<char>, FilterSlotsInner)>;

    closed spec fn view(&self) -> Seq<(Seq<char>, FilterSlotsInner)> {
        self.filters@.map_values(|f: (FilterName, FilterSlotsInner)| (f.0@, f.1))
    }
}

/// What `configs` ask for.
pub open spec fn slots_models(configs: Seq<(String, ConfigFilterSlots)>) -> Seq<
    (Seq<char>, FilterSlotsInner),
> {
    configs.map_values(|c: (String, ConfigFilterSlots)| (c.0@, slots_model(c.1)))
}

impl FilterSlots {
    /// The filters of `configs`.
    pub fn new(names: &mut FilterNames, configs: &Vec<(String, ConfigFilterSlots)>) -> (r: Self)
        ensures
            r@ == slots_models(configs@),
    {
        let mut filters: Vec<(FilterName, FilterSlotsInner)> = Vec::new();
        let mut i: usize = 0;
        while i < configs.len()
            invariant
                i <= configs@.len(),
                filters@.len() == i,
                forall|j: int|
                    0 <= j < i ==> (#[trigger] filters@[j]).0@ == configs@[j].0@ && filters@[j].1
                        == slots_model(configs@[j].1),
            decreases configs@.len() - i,
        {
            let name = names.get(configs[i].0.as_str());
            filters.push((name, FilterSlotsInner::new(configs[i].1)));
            i = i + 1;
        }
        let r = FilterSlots { filters };
        assert(r@ =~= slots_models(configs@));
        r
    }

    /// The update, where some filter passes it.
    pub fn get_update<'a>(
        &'a self,
        message: &'a MessageSlot,
        commitment: CommitmentLevel,
    ) -> (r: Option<FilteredUpdate<'a>>)
        ensures
            update_with(
                r,
                matching(
                    self@,
                    |f: FilterSlotsInner| f.passes(message@.status(), commitment),
                ),
                FilteredUpdateType::Slot { message },
            ),
    {
        let status = message.status();
        let ghost passes = |f: FilterSlotsInner| f.passes(message@.status(), commitment);
        let mut filters = NameList::new();
        let mut i: usize = 0;
        assert(self@.take(0) =~= Seq::<(Seq<char>, FilterSlotsInner)>::empty());
        while i < self.filters.len()
            invariant
                i <= self.filters@.len(),
                self.filters@.len() == self@.len(),
                status == message@.status(),
                passes == (|f: FilterSlotsInner| f.passes(message@.status(), commitment)),
                collections::names(filters) == matching(self@.take(i as int), passes),
            decreases self.filters@.len() - i,
        {
            proof {
                assert(self@.take(i + 1).drop_last() =~= self@.take(i as int));
                assert(self@.take(i + 1).last() == (
                    self.filters@[i as int].0@,
                    self.filters@[i as int].1,
                ));
            }
            if self.filters[i].1.is_match(status, commitment) {
                filters.push(self.filters[i].0.as_ref());
            }
            i = i + 1;
        }
        assert(self@.take(self@.len() as int) =~= self@);
        if filters.len() == 0 {
            assert(collections::names(filters) =~= Seq::<Seq<char>>::empty());
            None
        } else {
            Some(FilteredUpdate { filters, filtered_update: FilteredUpdateType::Slot { message } })
        }
    }
}

// ---------------------------------------------------------------------------------------------
// Updates
// ---------------------------------------------------------------------------------------------

/// The names of the filters that an update passed.
pub type FilteredUpdateFilters<'a> = NameList<'a>;

/// What of a message passed.
#[derive(Debug)]
pub enum FilteredUpdateType<'a> {
    Slot { message: &'a MessageSlot },
    Account { message: &'a MessageAccount, data_slices: &'a FilterAccountDataSlices },
    Transaction { message: &'a MessageTransaction },
    TransactionStatus { message: &'a MessageTransaction },
    Entry { message: &'a MessageEntry },
    BlockMeta { message: &'a MessageBlockMeta },
    Block {
        message: &'a MessageBlock,
        /// The indices of the accounts that passed.
        accounts: Vec<usize>,
        /// The indices of the transactions that passed.
        transactions: Vec<usize>,
        /// Whether the entries passed.
        entries: bool,
        data_slices: &'a FilterAccountDataSlices,
    },
}

/// An update that passed.
#[derive(Debug)]
pub struct FilteredUpdate<'a> {
    pub filters: FilteredUpdateFilters<'a>,
    pub filtered_update: FilteredUpdateType<'a>,
}

/// Whether `r` is the update `filtered_update` for the filters `names`, or nothing where there is
/// no filter.
pub open spec fn update_with(
    r: Option<FilteredUpdate>,
    names: Seq<Seq<char>>,
    filtered_update: FilteredUpdateType,
) -> bool {
    match r {
        Some(update) => {
            &&& names.len() > 0
            &&& collections::names(update.filters) == names
            &&& update.filtered_update == filtered_update
        },
        None => names.len() == 0,
    }
}

// ---------------------------------------------------------------------------------------------
// Accounts
// ---------------------------------------------------------------------------------------------

/// What the lamports of an account have to meet.
#[derive(Debug, Clone, Copy, PartialEq, Eq, Structural)]
pub enum FilterAccountsLamports {
    Eq(u64),
    Ne(u64),
    Lt(u64),
    Gt(u64),
}

/// What `config` asks for.
pub open spec fn lamports_model(
    config: ConfigFilterAccountsFilterLamports,
) -> FilterAccountsLamports {
    match config {
        ConfigFilterAccountsFilterLamports::Eq(v) => FilterAccountsLamports::Eq(v),
        ConfigFilterAccountsFilterLamports::Ne(v) => FilterAccountsLamports::Ne(v),
        ConfigFilterAccountsFilterLamports::Lt(v) => FilterAccountsLamports::Lt(v),
        ConfigFilterAccountsFilterLamports::Gt(v) => FilterAccountsLamports::Gt(v),
    }
}

impl FilterAccountsLamports {
    /// Whether `lamports` are what is asked for.
    pub open spec fn passes(self, lamports: u64) -> bool {
        match self {
            FilterAccountsLamports::Eq(value) => lamports == value,
            FilterAccountsLamports::Ne(value) => lamports != value,
            FilterAccountsLamports::Lt(value) => lamports < value,
            FilterAccountsLamports::Gt(value) => lamports > value,
        }
    }

    /// What `config` asks for.
    pub fn new(config: ConfigFilterAccountsFilterLamports) -> (r: Self)
        ensures
            r == lamports_model(config),
    {
        match config {
            ConfigFilterAccountsFilterLamports::Eq(v) => FilterAccountsLamports::Eq(v),
            ConfigFilterAccountsFilterLamports::Ne(v) => FilterAccountsLamports::Ne(v),
            ConfigFilterAccountsFilterLamports::Lt(v) => FilterAccountsLamports::Lt(v),
            ConfigFilterAccountsFilterLamports::Gt(v) => FilterAccountsLamports::Gt(v),
        }
    }

    /// Whether `lamports` are what is asked for.
    pub fn is_match(self, lamports: u64) -> (r: bool)
        ensures
            r == self.passes(lamports),
    {
        match self {
            FilterAccountsLamports::Eq(value) => value == lamports,
            FilterAccountsLamports::Ne(value) => value != lamports,
            FilterAccountsLamports::Lt(value) => value > lamports,
            FilterAccountsLamports::Gt(value) => value < lamports,
        }
    }
}

/// Whether `data` is that of a token account: of the plain length, or longer, not of the length of a
/// multisignature account and marked as an account; and in either case initialized.
pub open spec fn token_account(data: Seq<u8>) -> bool {
    &&& data.len() == 165 || (data.len() > 165 && data.len() != 355 && data[165] == 2)
    &&& data[108] != 0
}

/// `GenericTokenAccount::valid_account_data` of `spl_token_2022_interface::state::Account`: whether
/// the data is that of a token account.
#[verifier::external_body]
fn valid_account_data(data: &[u8]) -> (r: bool)
    ensures
        r == token_account(data@),
{
    <spl_token_2022_interface::state::Account as spl_token_2022_interface::generic_token_account::GenericTokenAccount>::valid_account_data(data)
}

/// Parts of the data of an account.
#[derive(Debug)]
pub struct FilterAccountDataSlices {
    slices: RangeList,
}

/// The parts that `configs` ask for.
pub open spec fn slices_model(configs: Seq<ConfigFilterAccountsDataSlice>) -> Seq<(nat, nat)> {
    configs.map_values(
        |c: ConfigFilterAccountsDataSlice| (c.offset as nat, (c.offset + c.length) as nat),
    )
}

/// The parts of `source` from and up to the places in `slices`, those that reach beyond its end left
/// out.
pub open spec fn sliced(slices: Seq<(nat, nat)>, source: Seq<u8>) -> Seq<u8>
    decreases slices.len(),
{
    if slices.len() == 0 {
        Seq::empty()
    } else {
        let before = sliced(slices.drop_last(), source);
        let (start, end) = slices.last();
        if end <= source.len() {
            before + source.subrange(start as int, end as int)
        } else {
            before
        }
    }
}

/// What is passed of `source`: all of it where no part is asked for.
pub open spec fn slice_of(slices: Seq<(nat, nat)>, source: Seq<u8>) -> Seq<u8> {
    if slices.len() == 0 {
        source
    } else {
        sliced(slices, source)
    }
}

impl View for FilterAccountDataSlices {
    type V = Seq<(nat, nat)>;

    closed spec fn view(&self) -> Seq<(nat, nat)> {
        collections::ranges(self.slices).map_values(
            |r: Range<usize>| (r.start as nat, r.end as nat),
        )
    }
}

impl FilterAccountDataSlices {
    /// Each part starts before it ends.
    #[verifier::type_invariant]
    spec fn wf(&self) -> bool {
        forall|i: int|
            0 <= i < collections::ranges(self.slices).len() ==> (#[trigger] collections::ranges(
                self.slices,
            )[i]).start <= collections::ranges(self.slices)[i].end
    }

    /// No parts.
    pub fn none() -> (r: Self)
        ensures
            r@ == Seq::<(nat, nat)>::empty(),
    {
        let r = FilterAccountDataSlices { slices: RangeList::new() };
        assert(r@ =~= Seq::<(nat, nat)>::empty());
        r
    }

    /// The parts that `data_slices` ask for.
    pub fn new(data_slices: &Vec<ConfigFilterAccountsDataSlice>) -> (r: Self)
        requires
            forall|i: int|
                0 <= i < data_slices@.len() ==> {
                    let slice = #[trigger] data_slices@[i];
                    slice.offset + slice.length <= usize::MAX && slice.offset + slice.length
                        <= u64::MAX
                },
        ensures
            r@ == slices_model(data_slices@),
    {
        let mut slices = RangeList::new();
        let mut i: usize = 0;
        while i < data_slices.len()
            invariant
                i <= data_slices@.len(),
                forall|i: int|
                    0 <= i < data_slices@.len() ==> {
                        let slice = #[trigger] data_slices@[i];
                        slice.offset + slice.length <= usize::MAX && slice.offset + slice.length
                            <= u64::MAX
                    },
                collections::ranges(slices).len() == i,
                forall|j: int|
                    0 <= j < i ==> (#[trigger] collections::ranges(slices)[j]).start
                        == data_slices@[j].offset && collections::ranges(slices)[j].end
                        == data_slices@[j].offset + data_slices@[j].length,
            decreases data_slices@.len() - i,
        {
            let slice = data_slices[i];
            let end: u64 = slice.offset + slice.length;
            slices.push(Range { start: slice.offset as usize, end: end as usize });
            i = i + 1;
        }
        let r = FilterAccountDataSlices { slices };
        assert(r@ =~= slices_model(data_slices@));
        r
    }

    /// Whether no part is asked for.
    pub fn is_empty(&self) -> (r: bool)
        ensures
            r == (self@.len() == 0),
    {
        self.slices.as_slice().len() == 0
    }

    /// What is passed of `source`.
    pub fn get_slice(&self, source: &[u8]) -> (r: Vec<u8>)
        ensures
            r@ == slice_of(self@, source@),
    {
        proof {
            use_type_invariant(self);
        }
        let slices: &[Range<usize>] = self.slices.as_slice();
        if slices.len() == 0 {
            return vstd::slice::slice_to_vec(source);
        }
        let mut data: Vec<u8> = Vec::new();
        let mut i: usize = 0;
        assert(self@.take(0) =~= Seq::<(nat, nat)>::empty());
        while i < slices.len()
            invariant
                i <= slices@.len(),
                slices@ == collections::ranges(self.slices),
                slices@.len() == self@.len(),
                forall|i: int|
                    0 <= i < slices@.len() ==> (#[trigger] slices@[i]).start <= slices@[i].end,
                data@ == sliced(self@.take(i as int), source@),
            decreases slices@.len() - i,
        {
            proof {
                assert(self@.take(i + 1).drop_last() =~= self@.take(i as int));
                assert(self@.take(i + 1).last() == (
                    slices@[i as int].start as nat,
                    slices@[i as int].end as nat,
                ));
            }
            if source.len() >= slices[i].end {
                let part: &[u8] = vstd::slice::slice_subrange(
                    source,
                    slices[i].start,
                    slices[i].end,
                );
                crate::encode::put_slice(part, &mut data);
            }
            i = i + 1;
        }
        assert(self@.take(self@.len() as int) =~= self@);
        data
    }
}

/// What an account has to meet.
pub ghost struct StateModel {
    /// Bytes that have to be in the data, and where.
    pub chunks: Seq<(nat, Seq<u8>)>,
    pub datasize: Option<usize>,
    pub token_account_state: bool,
    pub lamports: Seq<FilterAccountsLamports>,
}

/// The number as a length.
pub open spec fn length_of(v: u64) -> usize {
    v as usize
}

/// The number as a length.
fn to_length(v: u64) -> (r: usize)
    ensures
        r == length_of(v),
{
    v as usize
}

/// What `configs` ask for. Of several lengths the last counts.
pub open spec fn state_model(configs: Seq<ConfigFilterAccountsFilter>) -> StateModel
    decreases configs.len(),
{
    if configs.len() == 0 {
        StateModel {
            chunks: Seq::empty(),
            datasize: None,
            token_account_state: false,
            lamports: Seq::empty(),
        }
    } else {
        let before = state_model(configs.drop_last());
        match configs.last() {
            ConfigFilterAccountsFilter::Bytes { offset, data } => StateModel {
                chunks: before.chunks.push((nat_of(offset), data@)),
                ..before
            },
            ConfigFilterAccountsFilter::DataSize(v) => StateModel {
                datasize: Some(length_of(v)),
                ..before
            },
            ConfigFilterAccountsFilter::TokenAccountState => StateModel {
                token_account_state: true,
                ..before
            },
            ConfigFilterAccountsFilter::Lamports(v) => StateModel {
                lamports: before.lamports.push(lamports_model(v)),
                ..before
            },
        }
    }
}

/// The number of `v`.
pub open spec fn nat_of(v: usize) -> nat {
    v as nat
}

/// Whether the bytes `chunk.1` are in `data`, at `chunk.0`.
pub open spec fn chunk_in(chunk: (nat, Seq<u8>), data: Seq<u8>) -> bool {
    &&& chunk.0 + chunk.1.len() <= data.len()
    &&& data.subrange(chunk.0 as int, (chunk.0 + chunk.1.len()) as int) == chunk.1
}

impl StateModel {
    /// Whether an account with the lamports and the data meets what is asked for.
    pub open spec fn passes(self, lamports: u64, data: Seq<u8>) -> bool {
        &&& self.datasize matches Some(len) ==> data.len() == len
        &&& self.token_account_state ==> token_account(data)
        &&& forall|i: int| 0 <= i < self.lamports.len() ==> (#[trigger] self.lamports[i]).passes(
            lamports,
        )
        &&& forall|i: int| 0 <= i < self.chunks.len() ==> chunk_in(#[trigger] self.chunks[i], data)
    }
}

/// What an account has to meet.
#[derive(Debug)]
pub struct FilterAccountsState {
    chunks: ArrayVec<(usize, ArrayVec<u8, 128>), 4>,
    datasize: Option<usize>,
    token_account_state: bool,
    lamports: ArrayVec<FilterAccountsLamports, 4>,
}

/// The offsets and bytes of `items`.
spec fn chunk_models(items: Seq<(usize, ArrayVec<u8, 128>)>) -> Seq<(nat, Seq<u8>)> {
    items.map_values(|c: (usize, ArrayVec<u8, 128>)| (nat_of(c.0), collections::chunk(c.1)))
}

impl View for FilterAccountsState {
    type V = StateModel;

    closed spec fn view(&self) -> StateModel {
        StateModel {
            chunks: chunk_models(collections::chunks(self.chunks)),
            datasize: self.datasize,
            token_account_state: self.token_account_state,
            lamports: collections::lamports(self.lamports),
        }
    }
}

/// How many of the first `i` filters are comparisons is no more than how many of all are.
proof fn lemma_counts(filters: Seq<ConfigFilterAccountsFilter>, i: int)
    requires
        0 <= i <= filters.len(),
    ensures
        config::bytes_count(filters.take(i)) <= config::bytes_count(filters),
        config::lamports_count(filters.take(i)) <= config::lamports_count(filters),
        i < filters.len() && filters[i] is Bytes ==> config::bytes_count(filters.take(i))
            < config::bytes_count(filters),
        i < filters.len() && filters[i] is Lamports ==> config::lamports_count(filters.take(i))
            < config::lamports_count(filters),
    decreases filters.len(),
{
    if i < filters.len() {
        let rest = filters.drop_last();
        if i < rest.len() {
            lemma_counts(rest, i);
            assert(rest.take(i) =~= filters.take(i));
        } else {
            assert(filters.take(i) =~= rest);
        }
    } else {
        assert(filters.take(i) =~= filters);
    }
}

/// The number of comparisons that the model holds.
proof fn lemma_model_counts(filters: Seq<ConfigFilterAccountsFilter>)
    ensures
        state_model(filters).chunks.len() == config::bytes_count(filters),
        state_model(filters).lamports.len() == config::lamports_count(filters),
    decreases filters.len(),
{
    if filters.len() > 0 {
        lemma_model_counts(filters.drop_last());
    }
}

impl FilterAccountsState {
    /// The offsets leave room for the bytes.
    #[verifier::type_invariant]
    spec fn wf(&self) -> bool {
        forall|i: int|
            0 <= i < collections::chunks(self.chunks).len() ==> (#[trigger] collections::chunks(
                self.chunks,
            )[i]).0 + collections::chunk(collections::chunks(self.chunks)[i].1).len() <= usize::MAX
    }

    /// What `filters` ask for.
    pub fn new(filters: &Vec<ConfigFilterAccountsFilter>) -> (r: Self)
        requires
            config::filters_fit(filters@),
        ensures
            r@ == state_model(filters@),
    {
        let mut chunks = collections::chunks_new();
        let mut datasize: Option<usize> = None;
        let mut token_account_state: bool = false;
        let mut lamports = collections::lamports_new();
        let mut i: usize = 0;
        assert(filters@.take(0) =~= Seq::<ConfigFilterAccountsFilter>::empty());
        assert(chunk_models(collections::chunks(chunks)) =~= Seq::<(nat, Seq<u8>)>::empty());
        while i < filters.len()
            invariant
                i <= filters@.len(),
                config::filters_fit(filters@),
                forall|k: int|
                    0 <= k < collections::chunks(chunks).len() ==> (#[trigger] collections::chunks(
                        chunks,
                    )[k]).0 + collections::chunk(collections::chunks(chunks)[k].1).len()
                        <= usize::MAX,
                state_model(filters@.take(i as int)) == (StateModel {
                    chunks: chunk_models(collections::chunks(chunks)),
                    datasize,
                    token_account_state,
                    lamports: collections::lamports(lamports),
                }),
            decreases filters@.len() - i,
        {
            proof {
                assert(filters@.take(i + 1).drop_last() =~= filters@.take(i as int));
                assert(filters@.take(i + 1).last() == filters@[i as int]);
                lemma_counts(filters@, i as int);
                lemma_model_counts(filters@.take(i as int));
            }
            match &filters[i] {
                ConfigFilterAccountsFilter::Bytes { offset, data } => {
                    match collections::chunk_from(data.as_slice()) {
                        Some(bytes) => {
                            let ghost before = collections::chunks(chunks);
                            collections::chunks_push(&mut chunks, (*offset, bytes));
                            assert(chunk_models(collections::chunks(chunks)) =~= chunk_models(
                                before,
                            ).push((nat_of(*offset), data@)));
                        },
                        None => {},
                    }
                },
                ConfigFilterAccountsFilter::DataSize(size) => {
                    datasize = Some(to_length(*size));
                },
                ConfigFilterAccountsFilter::TokenAccountState => {
                    token_account_state = true;
                },
                ConfigFilterAccountsFilter::Lamports(value) => {
                    collections::lamports_push(
                        &mut lamports,
                        FilterAccountsLamports::new(*value),
                    );
                },
            }
            i = i + 1;
        }
        assert(filters@.take(filters@.len() as int) =~= filters@);
        FilterAccountsState { chunks, datasize, token_account_state, lamports }
    }

    /// Whether an account with the lamports and the data meets what is asked for.
    pub fn is_match(&self, lamports: u64, data: &[u8]) -> (r: bool)
        ensures
            r == self@.passes(lamports, data@),
    {
        proof {
            use_type_invariant(self);
        }
        if let Some(datasize) = self.datasize {
            if data.len() != datasize {
                return false;
            }
        }
        if self.token_account_state && !valid_account_data(data) {
            return false;
        }
        let items: &[FilterAccountsLamports] = collections::lamports_slice(&self.lamports);
        let mut i: usize = 0;
        while i < items.len()
            invariant
                i <= items@.len(),
                items@ == self@.lamports,
                forall|j: int| 0 <= j < i ==> (#[trigger] items@[j]).passes(lamports),
            decreases items@.len() - i,
        {
            if !items[i].is_match(lamports) {
                return false;
            }
            i = i + 1;
        }
        self.chunks_match(data)
    }

    /// Whether the bytes that have to be in the data are there.
    fn chunks_match(&self, data: &[u8]) -> (r: bool)
        ensures
            r == forall|i: int|
                0 <= i < self@.chunks.len() ==> chunk_in(#[trigger] self@.chunks[i], data@),
    {
        proof {
            use_type_invariant(self);
        }
        let items: &[(usize, ArrayVec<u8, 128>)] = collections::chunks_slice(&self.chunks);
        let mut i: usize = 0;
        while i < items.len()
            invariant
                i <= items@.len(),
                items@ == collections::chunks(self.chunks),
                items@.len() == self@.chunks.len(),
                forall|j: int|
                    0 <= j < items@.len() ==> (#[trigger] items@[j]).0 + collections::chunk(
                        items@[j].1,
                    ).len() <= usize::MAX,
                forall|j: int| 0 <= j < i ==> chunk_in(#[trigger] self@.chunks[j], data@),
            decreases items@.len() - i,
        {
            let offset: usize = items[i].0;
            let bytes: &[u8] = collections::chunk_slice(&items[i].1);
            assert(self@.chunks[i as int] == (nat_of(offset), bytes@));
            if data.len() < offset + bytes.len() {
                return false;
            }
            let part: &[u8] = vstd::slice::slice_subrange(data, offset, offset + bytes.len());
            if !same_bytes(part, bytes) {
                return false;
            }
            i = i + 1;
        }
        true
    }
}

/// Which account updates to pass.
pub ghost struct AccountsModel {
    pub account: Set<Seq<u8>>,
    pub owner: Set<Seq<u8>>,
    pub filters: Option<StateModel>,
    pub nonempty_txn_signature: Option<bool>,
}

/// Whether `key` is among `keys`, or there is none.
pub open spec fn among(keys: Set<Seq<u8>>, key: Seq<u8>) -> bool {
    keys == Set::<Seq<u8>>::empty() || keys.contains(key)
}

impl AccountsModel {
    /// Whether an update of the account passes.
    pub open spec fn passes(self, info: crate::geyser::AccountInfoView) -> bool {
        &&& among(self.account, info.pubkey)
        &&& among(self.owner, info.owner)
        &&& self.filters matches Some(state) ==> state.passes(info.lamports, info.data)
        &&& self.nonempty_txn_signature matches Some(v) ==> v == (info.txn_signature is Some)
    }
}

/// What `config` asks for.
pub open spec fn accounts_model(config: ConfigFilterAccounts) -> AccountsModel {
    AccountsModel {
        account: pubkey::key_seq(config.account@).to_set(),
        owner: pubkey::key_seq(config.owner@).to_set(),
        filters: if config.filters@.len() == 0 {
            None
        } else {
            Some(state_model(config.filters@))
        },
        nonempty_txn_signature: config.nonempty_txn_signature,
    }
}

/// What `configs` ask for.
pub open spec fn accounts_models(configs: Seq<(String, ConfigFilterAccounts)>) -> Seq<
    (Seq<char>, AccountsModel),
> {
    configs.map_values(|c: (String, ConfigFilterAccounts)| (c.0@, accounts_model(c.1)))
}

/// Which account updates to pass.
#[derive(Debug)]
pub struct FilterAccountsInner {
    account: PubkeySet,
    owner: PubkeySet,
    filters: Option<FilterAccountsState>,
    nonempty_txn_signature: Option<bool>,
}

impl View for FilterAccountsInner {
    type V = AccountsModel;

    closed spec fn view(&self) -> AccountsModel {
        AccountsModel {
            account: self.account@,
            owner: self.owner@,
            filters: match self.filters {
                Some(f) => Some(f@),
                None => None,
            },
            nonempty_txn_signature: self.nonempty_txn_signature,
        }
    }
}

impl FilterAccountsInner {
    /// What `filter` asks for.
    pub fn new(filter: &ConfigFilterAccounts) -> (r: Self)
        requires
            config::filters_fit(filter.filters@),
        ensures
            r@ == accounts_model(*filter),
    {
        FilterAccountsInner {
            account: PubkeySet::from_keys(&filter.account),
            owner: PubkeySet::from_keys(&filter.owner),
            filters: if filter.filters.len() == 0 {
                None
            } else {
                Some(FilterAccountsState::new(&filter.filters))
            },
            nonempty_txn_signature: filter.nonempty_txn_signature,
        }
    }

    /// Whether an update of the account passes.
    pub fn is_match(&self, message: &MessageAccount) -> (r: bool)
        requires
            message@.in_bounds(),
        ensures
            r == self@.passes(message@.content().info),
    {
        if !self.account.is_empty() && !self.account.contains(message.pubkey()) {
            return false;
        }
        if !self.owner.is_empty() && !self.owner.contains(message.owner()) {
            return false;
        }
        if let Some(filters) = &self.filters {
            if !filters.is_match(message.lamports(), message.data()) {
                return false;
            }
        }
        if let Some(nonempty_txn_signature) = self.nonempty_txn_signature {
            if nonempty_txn_signature != message.nonempty_txn_signature() {
                return false;
            }
        }
        true
    }
}

/// Filters of account updates.
#[derive(Debug)]
pub struct FilterAccounts {
    filters: Vec<(FilterName, FilterAccountsInner)>,
}

impl View for FilterAccounts {
    type V = Seq<(Seq<char>, AccountsModel)>;

    closed spec fn view(&self) -> Seq<(Seq<char>, AccountsModel)> {
        self.filters@.map_values(|f: (FilterName, FilterAccountsInner)| (f.0@, f.1@))
    }
}

impl FilterAccounts {
    /// The filters of `configs`.
    pub fn new(names: &mut FilterNames, configs: &Vec<(String, ConfigFilterAccounts)>) -> (r: Self)
        requires
            forall|i: int|
                0 <= i < configs@.len() ==> config::filters_fit((#[trigger] configs@[i]).1.filters@),
        ensures
            r@ == accounts_models(configs@),
    {
        let mut filters: Vec<(FilterName, FilterAccountsInner)> = Vec::new();
        let mut i: usize = 0;
        while i < configs.len()
            invariant
                i <= configs@.len(),
                forall|i: int|
                    0 <= i < configs@.len() ==> config::filters_fit(
                        (#[trigger] configs@[i]).1.filters@,
                    ),
                filters@.len() == i,
                forall|j: int|
                    0 <= j < i ==> (#[trigger] filters@[j]).0@ == configs@[j].0@ && filters@[j].1@
                        == accounts_model(configs@[j].1),
            decreases configs@.len() - i,
        {
            let name = names.get(configs[i].0.as_str());
            filters.push((name, FilterAccountsInner::new(&configs[i].1)));
            i = i + 1;
        }
        let r = FilterAccounts { filters };
        assert(r@ =~= accounts_models(configs@));
        r
    }

    /// The update, where some filter passes it.
    pub fn get_update<'a>(
        &'a self,
        message: &'a MessageAccount,
        data_slices: &'a FilterAccountDataSlices,
    ) -> (r: Option<FilteredUpdate<'a>>)
        requires
            message@.in_bounds(),
        ensures
            update_with(
                r,
                matching(self@, |f: AccountsModel| f.passes(message@.content().info)),
                FilteredUpdateType::Account { message, data_slices },
            ),
    {
        let ghost passes = |f: AccountsModel| f.passes(message@.content().info);
        let mut filters = NameList::new();
        let mut i: usize = 0;
        assert(self@.take(0) =~= Seq::<(Seq<char>, AccountsModel)>::empty());
        while i < self.filters.len()
            invariant
                i <= self.filters@.len(),
                message@.in_bounds(),
                self.filters@.len() == self@.len(),
                passes == (|f: AccountsModel| f.passes(message@.content().info)),
                collections::names(filters) == matching(self@.take(i as int), passes),
            decreases self.filters@.len() - i,
        {
            proof {
                assert(self@.take(i + 1).drop_last() =~= self@.take(i as int));
                assert(self@.take(i + 1).last() == (
                    self.filters@[i as int].0@,
                    self.filters@[i as int].1@,
                ));
            }
            if self.filters[i].1.is_match(message) {
                filters.push(self.filters[i].0.as_ref());
            }
            i = i + 1;
        }
        assert(self@.take(self@.len() as int) =~= self@);
        if filters.len() == 0 {
            None
        } else {
            Some(
                FilteredUpdate {
                    filters,
                    filtered_update: FilteredUpdateType::Account { message, data_slices },
                },
            )
        }
    }
}

// ---------------------------------------------------------------------------------------------
// Transactions
// ---------------------------------------------------------------------------------------------

/// Which transaction updates to make.
#[derive(Debug, Clone, Copy, PartialEq, Eq, Structural)]
pub enum FilterTransactionsType {
    Transaction,
    TransactionStatus,
}

/// Which transaction updates to pass.
pub ghost struct TransactionsModel {
    pub vote: Option<bool>,
    pub failed: Option<bool>,
    pub signature: Option<Seq<u8>>,
    pub account_include: Set<Seq<u8>>,
    pub account_exclude: Set<Seq<u8>>,
    pub account_required: Set<Seq<u8>>,
}

impl TransactionsModel {
    /// Whether an update of the transaction passes.
    pub open spec fn passes(self, tx: crate::message::MessageTransactionView) -> bool {
        &&& self.vote matches Some(v) ==> v == tx.vote()
        &&& self.failed matches Some(v) ==> v == tx.failed()
        &&& self.signature matches Some(s) ==> s == tx.signature()
        &&& self.account_include == Set::<Seq<u8>>::empty() || !self.account_include.disjoint(
            tx.account_keys(),
        )
        &&& self.account_exclude.disjoint(tx.account_keys())
        &&& self.account_required.subset_of(tx.account_keys())
    }
}

/// The bytes of the signature, if there is one.
pub open spec fn signature_opt(v: Option<Signature>) -> Option<Seq<u8>> {
    match v {
        Some(s) => Some(s@),
        None => None,
    }
}

/// What `config` asks for.
pub open spec fn transactions_model(config: ConfigFilterTransactions) -> TransactionsModel {
    TransactionsModel {
        vote: config.vote,
        failed: config.failed,
        signature: signature_opt(config.signature),
        account_include: pubkey::key_seq(config.account_include@).to_set(),
        account_exclude: pubkey::key_seq(config.account_exclude@).to_set(),
        account_required: pubkey::key_seq(config.account_required@).to_set(),
    }
}

/// What `configs` ask for.
pub open spec fn transactions_models(configs: Seq<(String, ConfigFilterTransactions)>) -> Seq<
    (Seq<char>, TransactionsModel),
> {
    configs.map_values(|c: (String, ConfigFilterTransactions)| (c.0@, transactions_model(c.1)))
}

/// Which transaction updates to pass.
#[derive(Debug)]
pub struct FilterTransactionsInner {
    vote: Option<bool>,
    failed: Option<bool>,
    signature: Option<Signature>,
    account_include: PubkeySet,
    account_exclude: PubkeySet,
    account_required: PubkeySet,
}

impl View for FilterTransactionsInner {
    type V = TransactionsModel;

    closed spec fn view(&self) -> TransactionsModel {
        TransactionsModel {
            vote: self.vote,
            failed: self.failed,
            signature: signature_opt(self.signature),
            account_include: self.account_include@,
            account_exclude: self.account_exclude@,
            account_required: self.account_required@,
        }
    }
}

impl FilterTransactionsInner {
    /// What `filter` asks for.
    pub fn new(filter: &ConfigFilterTransactions) -> (r: Self)
        ensures
            r@ == transactions_model(*filter),
    {
        FilterTransactionsInner {
            vote: filter.vote,
            failed: filter.failed,
            signature: filter.signature,
            account_include: PubkeySet::from_keys(&filter.account_include),
            account_exclude: PubkeySet::from_keys(&filter.account_exclude),
            account_required: PubkeySet::from_keys(&filter.account_required),
        }
    }

    /// Whether an update of the transaction passes.
    pub fn is_match(&self, message: &MessageTransaction) -> (r: bool)
        requires
            message@.in_bounds(),
            message@.signed(),
        ensures
            r == self@.passes(message@),
    {
        if let Some(is_vote) = self.vote {
            if is_vote != message.vote() {
                return false;
            }
        }
        if let Some(is_failed) = self.failed {
            if is_failed != message.failed() {
                return false;
            }
        }
        if let Some(signature) = &self.signature {
            if !signature.equals(message.signature_ref()) {
                return false;
            }
        }
        if !self.account_include.is_empty() && !self.account_include.intersects(
            message.account_keys(),
        ) {
            return false;
        }
        if !self.account_exclude.is_empty() && self.account_exclude.intersects(
            message.account_keys(),
        ) {
            return false;
        }
        if !self.account_required.is_empty() && !self.account_required.is_subset(
            message.account_keys(),
        ) {
            return false;
        }
        true
    }
}

/// Filters of transaction updates.
#[derive(Debug)]
pub struct FilterTransactions {
    filter_type: FilterTransactionsType,
    filters: Vec<(FilterName, FilterTransactionsInner)>,
}

impl View for FilterTransactions {
    type V = Seq<(Seq<char>, TransactionsModel)>;

    closed spec fn view(&self) -> Seq<(Seq<char>, TransactionsModel)> {
        self.filters@.map_values(|f: (FilterName, FilterTransactionsInner)| (f.0@, f.1@))
    }
}

/// The update of the kind.
pub open spec fn transaction_update<'a>(
    filter_type: FilterTransactionsType,
    message: &'a MessageTransaction,
) -> FilteredUpdateType<'a> {
    match filter_type {
        FilterTransactionsType::Transaction => FilteredUpdateType::Transaction { message },
        FilterTransactionsType::TransactionStatus => {
            FilteredUpdateType::TransactionStatus { message }
        },
    }
}

impl FilterTransactions {
    /// Which updates the filters make.
    pub closed spec fn kind(&self) -> FilterTransactionsType {
        self.filter_type
    }

    /// The filters of `configs`.
    pub fn new(
        names: &mut FilterNames,
        configs: &Vec<(String, ConfigFilterTransactions)>,
        filter_type: FilterTransactionsType,
    ) -> (r: Self)
        ensures
            r@ == transactions_models(configs@),
            r.kind() == filter_type,
    {
        let mut filters: Vec<(FilterName, FilterTransactionsInner)> = Vec::new();
        let mut i: usize = 0;
        while i < configs.len()
            invariant
                i <= configs@.len(),
                filters@.len() == i,
                forall|j: int|
                    0 <= j < i ==> (#[trigger] filters@[j]).0@ == configs@[j].0@ && filters@[j].1@
                        == transactions_model(configs@[j].1),
            decreases configs@.len() - i,
        {
            let name = names.get(configs[i].0.as_str());
            filters.push((name, FilterTransactionsInner::new(&configs[i].1)));
            i = i + 1;
        }
        let r = FilterTransactions { filter_type, filters };
        assert(r@ =~= transactions_models(configs@));
        r
    }

    /// The update, where some filter passes it.
    pub fn get_update<'a>(&'a self, message: &'a MessageTransaction) -> (r: Option<
        FilteredUpdate<'a>,
    >)
        requires
            message@.in_bounds(),
            message@.signed(),
        ensures
            update_with(
                r,
                matching(self@, |f: TransactionsModel| f.passes(message@)),
                transaction_update(self.kind(), message),
            ),
    {
        let ghost passes = |f: TransactionsModel| f.passes(message@);
        let mut filters = NameList::new();
        let mut i: usize = 0;
        assert(self@.take(0) =~= Seq::<(Seq<char>, TransactionsModel)>::empty());
        while i < self.filters.len()
            invariant
                i <= self.filters@.len(),
                message@.in_bounds(),
                message@.signed(),
                self.filters@.len() == self@.len(),
                passes == (|f: TransactionsModel| f.passes(message@)),
                collections::names(filters) == matching(self@.take(i as int), passes),
            decreases self.filters@.len() - i,
        {
            proof {
                assert(self@.take(i + 1).drop_last() =~= self@.take(i as int));
                assert(self@.take(i + 1).last() == (
                    self.filters@[i as int].0@,
                    self.filters@[i as int].1@,
                ));
            }
            if self.filters[i].1.is_match(message) {
                filters.push(self.filters[i].0.as_ref());
            }
            i = i + 1;
        }
        assert(self@.take(self@.len() as int) =~= self@);
        if filters.len() == 0 {
            None
        } else {
            let filtered_update = match self.filter_type {
                FilterTransactionsType::Transaction => FilteredUpdateType::Transaction { message },
                FilterTransactionsType::TransactionStatus => {
                    FilteredUpdateType::TransactionStatus { message }
                },
            };
            Some(FilteredUpdate { filters, filtered_update })
        }
    }
}

// ---------------------------------------------------------------------------------------------
// Entries and block metadata
// ---------------------------------------------------------------------------------------------

/// The texts of `configs`.
pub open spec fn texts(configs: Seq<String>) -> Seq<Seq<char>> {
    configs.map_values(|c: String| c@)
}

/// The names of `configs`.
fn names_of(names: &mut FilterNames, configs: &Vec<String>) -> (r: Vec<FilterName>)
    ensures
        name_texts(r@) == texts(configs@),
{
    let mut filters: Vec<FilterName> = Vec::new();
    let mut i: usize = 0;
    while i < configs.len()
        invariant
            i <= configs@.len(),
            filters@.len() == i,
            forall|j: int| 0 <= j < i ==> (#[trigger] filters@[j])@ == configs@[j]@,
        decreases configs@.len() - i,
    {
        filters.push(names.get(configs[i].as_str()));
        i = i + 1;
    }
    assert(name_texts(filters@) =~= texts(configs@));
    filters
}

/// The names, as a list.
fn list_of<'a>(filters: &'a Vec<FilterName>) -> (r: NameList<'a>)
    ensures
        collections::names(r) == name_texts(filters@),
{
    let mut list = NameList::new();
    let mut i: usize = 0;
    let ghost all = name_texts(filters@);
    assert(all.take(0) =~= Seq::<Seq<char>>::empty());
    while i < filters.len()
        invariant
            i <= filters@.len(),
            all == name_texts(filters@),
            collections::names(list) == all.take(i as int),
        decreases filters@.len() - i,
    {
        list.push(filters[i].as_ref());
        assert(all.take(i + 1) =~= all.take(i as int).push(filters@[i as int]@));
        i = i + 1;
    }
    assert(all.take(filters@.len() as int) =~= all);
    list
}

/// Filters of entry updates: each passes all of them.
#[derive(Debug)]
pub struct FilterEntries {
    filters: Vec<FilterName>,
}

impl View for FilterEntries {
    type V = Seq<Seq<char>>;

    closed spec fn view(&self) -> Seq<Seq<char>> {
        name_texts(self.filters@)
    }
}

impl FilterEntries {
    /// The filters of `configs`.
    pub fn new(names: &mut FilterNames, configs: &Vec<String>) -> (r: Self)
        ensures
            r@ == texts(configs@),
    {
        FilterEntries { filters: names_of(names, configs) }
    }

    /// The update, where there is a filter.
    pub fn get_update<'a>(&'a self, message: &'a MessageEntry) -> (r: Option<FilteredUpdate<'a>>)
        ensures
            update_with(r, self@, FilteredUpdateType::Entry { message }),
    {
        let filters = list_of(&self.filters);
        if filters.len() == 0 {
            None
        } else {
            Some(FilteredUpdate { filters, filtered_update: FilteredUpdateType::Entry { message } })
        }
    }
}

/// Filters of block metadata updates: each passes all of them.
#[derive(Debug)]
pub struct FilterBlocksMeta {
    filters: Vec<FilterName>,
}

impl View for FilterBlocksMeta {
    type V = Seq<Seq<char>>;

    closed spec fn view(&self) -> Seq<Seq<char>> {
        name_texts(self.filters@)
    }
}

impl FilterBlocksMeta {
    /// The filters of `configs`.
    pub fn new(names: &mut FilterNames, configs: &Vec<String>) -> (r: Self)
        ensures
            r@ == texts(configs@),
    {
        FilterBlocksMeta { filters: names_of(names, configs) }
    }

    /// The update, where there is a filter.
    pub fn get_update<'a>(&'a self, message: &'a MessageBlockMeta) -> (r: Option<
        FilteredUpdate<'a>,
    >)
        ensures
            update_with(r, self@, FilteredUpdateType::BlockMeta { message }),
    {
        let filters = list_of(&self.filters);
        if filters.len() == 0 {
            None
        } else {
            Some(
                FilteredUpdate {
                    filters,
                    filtered_update: FilteredUpdateType::BlockMeta { message },
                },
            )
        }
    }
}

// ---------------------------------------------------------------------------------------------
// Blocks
// ---------------------------------------------------------------------------------------------

/// Which parts of block updates to pass.
pub ghost struct BlocksModel {
    pub account_include: Set<Seq<u8>>,
    pub include_transactions: Option<bool>,
    pub include_accounts: Option<bool>,
    pub include_entries: Option<bool>,
}

/// What `config` asks for.
pub open spec fn blocks_model(config: ConfigFilterBlocks) -> BlocksModel {
    BlocksModel {
        account_include: pubkey::key_seq(config.account_include@).to_set(),
        include_transactions: config.include_transactions,
        include_accounts: config.include_accounts,
        include_entries: config.include_entries,
    }
}

/// What `configs` ask for.
pub open spec fn blocks_models(configs: Seq<(String, ConfigFilterBlocks)>) -> Seq<
    (Seq<char>, BlocksModel),
> {
    configs.map_values(|c: (String, ConfigFilterBlocks)| (c.0@, blocks_model(c.1)))
}

/// The indices of the `items` that `passes` holds of, in order.
pub open spec fn passing<M>(items: Seq<M>, passes: spec_fn(M) -> bool) -> Seq<usize>
    decreases items.len(),
{
    if items.len() == 0 {
        Seq::empty()
    } else {
        let before = passing(items.drop_last(), passes);
        if passes(items.last()) {
            before.push((items.len() - 1) as usize)
        } else {
            before
        }
    }
}

impl BlocksModel {
    /// The indices of the accounts that pass: none unless accounts are asked for.
    pub open spec fn accounts(self, accounts: Seq<MessageAccountView>) -> Seq<usize> {
        if self.include_accounts == Some(true) {
            passing(
                accounts,
                |m: MessageAccountView| among(self.account_include, m.content().info.pubkey),
            )
        } else {
            Seq::empty()
        }
    }

    /// The indices of the transactions that pass: none where they are declined.
    pub open spec fn transactions(
        self,
        transactions: Seq<crate::message::MessageTransactionView>,
    ) -> Seq<usize> {
        if self.include_transactions == Some(false) {
            Seq::empty()
        } else {
            passing(
                transactions,
                |m: crate::message::MessageTransactionView|
                    self.account_include == Set::<Seq<u8>>::empty()
                        || !self.account_include.disjoint(m.account_keys()),
            )
        }
    }
}

/// Which parts of block updates to pass.
#[derive(Debug)]
pub struct FilterBlocksInner {
    account_include: PubkeySet,
    include_transactions: Option<bool>,
    include_accounts: Option<bool>,
    include_entries: Option<bool>,
}

impl View for FilterBlocksInner {
    type V = BlocksModel;

    closed spec fn view(&self) -> BlocksModel {
        BlocksModel {
            account_include: self.account_include@,
            include_transactions: self.include_transactions,
            include_accounts: self.include_accounts,
            include_entries: self.include_entries,
        }
    }
}

impl FilterBlocksInner {
    /// What `filter` asks for.
    pub fn new(filter: &ConfigFilterBlocks) -> (r: Self)
        ensures
            r@ == blocks_model(*filter),
    {
        FilterBlocksInner {
            account_include: PubkeySet::from_keys(&filter.account_include),
            include_transactions: filter.include_transactions,
            include_accounts: filter.include_accounts,
            include_entries: filter.include_entries,
        }
    }

    /// The indices of the accounts that pass.
    fn accounts(&self, message: &MessageBlock) -> (r: Vec<usize>)
        ensures
            r@ == self@.accounts(message@.accounts),
    {
        let mut indices: Vec<usize> = Vec::new();
        let included: bool = match self.include_accounts {
            Some(v) => v,
            None => false,
        };
        if !included {
            return indices;
        }
        let ghost all = message@.accounts;
        let ghost passes = |m: MessageAccountView|
            among(self@.account_include, m.content().info.pubkey);
        let mut i: usize = 0;
        assert(all.take(0) =~= Seq::<MessageAccountView>::empty());
        while i < message.accounts.len()
            invariant
                i <= message.accounts@.len(),
                all == message@.accounts,
                all.len() == message.accounts@.len(),
                passes == (|m: MessageAccountView|
                    among(self@.account_include, m.content().info.pubkey)),
                indices@ == passing(all.take(i as int), passes),
            decreases message.accounts@.len() - i,
        {
            proof {
                assert(all.take(i + 1).drop_last() =~= all.take(i as int));
                assert(all.take(i + 1).last() == (*message.accounts@[i as int])@);
            }
            if self.account_include.is_empty() || self.account_include.contains(
                message.accounts[i].pubkey(),
            ) {
                indices.push(i);
            }
            i = i + 1;
        }
        assert(all.take(all.len() as int) =~= all);
        indices
    }

    /// The indices of the transactions that pass.
    fn transactions(&self, message: &MessageBlock) -> (r: Vec<usize>)
        ensures
            r@ == self@.transactions(message@.transactions),
    {
        let mut indices: Vec<usize> = Vec::new();
        let included: bool = match self.include_transactions {
            Some(v) => v,
            None => true,
        };
        if !included {
            return indices;
        }
        let ghost all = message@.transactions;
        let ghost passes = |m: crate::message::MessageTransactionView|
            self@.account_include == Set::<Seq<u8>>::empty() || !self@.account_include.disjoint(
                m.account_keys(),
            );
        let mut i: usize = 0;
        assert(all.take(0) =~= Seq::<crate::message::MessageTransactionView>::empty());
        while i < message.transactions.len()
            invariant
                i <= message.transactions@.len(),
                all == message@.transactions,
                all.len() == message.transactions@.len(),
                passes == (|m: crate::message::MessageTransactionView|
                    self@.account_include == Set::<Seq<u8>>::empty()
                        || !self@.account_include.disjoint(m.account_keys())),
                indices@ == passing(all.take(i as int), passes),
            decreases message.transactions@.len() - i,
        {
            proof {
                assert(all.take(i + 1).drop_last() =~= all.take(i as int));
                assert(all.take(i + 1).last() == (*message.transactions@[i as int])@);
            }
            if self.account_include.is_empty() || self.account_include.intersects(
                message.transactions[i].account_keys(),
            ) {
                indices.push(i);
            }
            i = i + 1;
        }
        assert(all.take(all.len() as int) =~= all);
        indices
    }
}

/// Filters of block updates.
#[derive(Debug)]
pub struct FilterBlocks {
    filters: Vec<(FilterName, FilterBlocksInner)>,
}

impl View for FilterBlocks {
    type V = Seq<(Seq<char>, BlocksModel)>;

    closed spec fn view(&self) -> Seq<(Seq<char>, BlocksModel)> {
        self.filters@.map_values(|f: (FilterName, FilterBlocksInner)| (f.0@, f.1@))
    }
}

/// Whether `update` is the part of `message` that `filter` passes, under its name alone.
pub open spec fn block_update(
    update: FilteredUpdate,
    filter: (Seq<char>, BlocksModel),
    message: &MessageBlock,
    data_slices: &FilterAccountDataSlices,
) -> bool {
    &&& collections::names(update.filters) == seq![filter.0]
    &&& update.filtered_update matches FilteredUpdateType::Block {
        message: m,
        accounts,
        transactions,
        entries,
        data_slices: slices,
    } && {
        &&& m == message
        &&& accounts@ == filter.1.accounts(message@.accounts)
        &&& transactions@ == filter.1.transactions(message@.transactions)
        &&& entries == (filter.1.include_entries == Some(true))
        &&& slices == data_slices
    }
}

/// Whether `updates` are the parts of `message` that the `filters` pass, one for each.
pub open spec fn block_updates(
    updates: Seq<FilteredUpdate>,
    filters: Seq<(Seq<char>, BlocksModel)>,
    message: &MessageBlock,
    data_slices: &FilterAccountDataSlices,
) -> bool {
    &&& updates.len() == filters.len()
    &&& forall|i: int|
        0 <= i < updates.len() ==> block_update(
            #[trigger] updates[i],
            filters[i],
            message,
            data_slices,
        )
}

impl FilterBlocks {
    /// The filters of `configs`.
    pub fn new(names: &mut FilterNames, configs: &Vec<(String, ConfigFilterBlocks)>) -> (r: Self)
        ensures
            r@ == blocks_models(configs@),
    {
        let mut filters: Vec<(FilterName, FilterBlocksInner)> = Vec::new();
        let mut i: usize = 0;
        while i < configs.len()
            invariant
                i <= configs@.len(),
                filters@.len() == i,
                forall|j: int|
                    0 <= j < i ==> (#[trigger] filters@[j]).0@ == configs@[j].0@ && filters@[j].1@
                        == blocks_model(configs@[j].1),
            decreases configs@.len() - i,
        {
            let name = names.get(configs[i].0.as_str());
            filters.push((name, FilterBlocksInner::new(&configs[i].1)));
            i = i + 1;
        }
        let r = FilterBlocks { filters };
        assert(r@ =~= blocks_models(configs@));
        r
    }

    /// The part of the block that each filter passes.
    pub fn get_updates<'a>(
        &'a self,
        message: &'a MessageBlock,
        data_slices: &'a FilterAccountDataSlices,
    ) -> (r: UpdateList<'a>)
        ensures
            block_updates(collections::updates(r), self@, message, data_slices),
    {
        let mut list = UpdateList::new();
        let mut i: usize = 0;
        while i < self.filters.len()
            invariant
                i <= self.filters@.len(),
                self.filters@.len() == self@.len(),
                collections::updates(list).len() == i,
                forall|j: int|
                    0 <= j < i ==> block_update(
                        #[trigger] collections::updates(list)[j],
                        self@[j],
                        message,
                        data_slices,
                    ),
            decreases self.filters@.len() - i,
        {
            let filter = &self.filters[i].1;
            let mut filters = NameList::new();
            filters.push(self.filters[i].0.as_ref());
            let entries: bool = match filter.include_entries {
                Some(v) => v,
                None => false,
            };
            let update = FilteredUpdate {
                filters,
                filtered_update: FilteredUpdateType::Block {
                    message,
                    accounts: filter.accounts(message),
                    transactions: filter.transactions(message),
                    entries,
                    data_slices,
                },
            };
            proof {
                assert(self@[i as int] == (
                    self.filters@[i as int].0@,
                    self.filters@[i as int].1@,
                ));
                assert(collections::names(update.filters) =~= seq![self@[i as int].0]);
                assert(block_update(update, self@[i as int], message, data_slices));
            }
            list.push(update);
            i = i + 1;
        }
        list
    }

    /// Whether there is no filter.
    pub fn is_empty(&self) -> (r: bool)
        ensures
            r == (self@.len() == 0),
    {
        self.filters.len() == 0
    }
}

// ---------------------------------------------------------------------------------------------
// All filters of a subscriber
// ---------------------------------------------------------------------------------------------

/// The filters of a subscriber.
#[derive(Debug)]
pub struct Filter {
    slots: FilterSlots,
    accounts: FilterAccounts,
    accounts_data_slices: FilterAccountDataSlices,
    transactions: FilterTransactions,
    transactions_status: FilterTransactions,
    entries: FilterEntries,
    blocks_meta: FilterBlocksMeta,
    blocks: FilterBlocks,
    commitment: ConfigFilterCommitment,
}

/// What a subscriber asks for.
pub ghost struct FilterModel {
    pub slots: Seq<(Seq<char>, FilterSlotsInner)>,
    pub accounts: Seq<(Seq<char>, AccountsModel)>,
    pub accounts_data_slices: Seq<(nat, nat)>,
    pub transactions: Seq<(Seq<char>, TransactionsModel)>,
    pub transactions_status: Seq<(Seq<char>, TransactionsModel)>,
    pub entries: Seq<Seq<char>>,
    pub blocks_meta: Seq<Seq<char>>,
    pub blocks: Seq<(Seq<char>, BlocksModel)>,
    pub commitment: ConfigFilterCommitment,
}

/// What `config` asks for: without a commitment, the lowest one.
pub open spec fn filter_model(config: ConfigFilter) -> FilterModel {
    FilterModel {
        slots: slots_models(config.slots@),
        accounts: accounts_models(config.accounts@),
        accounts_data_slices: slices_model(config.accounts_data_slice@),
        transactions: transactions_models(config.transactions@),
        transactions_status: transactions_models(config.transactions_status@),
        entries: texts(config.entries@),
        blocks_meta: texts(config.blocks_meta@),
        blocks: blocks_models(config.blocks@),
        commitment: match config.commitment {
            Some(c) => c,
            None => ConfigFilterCommitment::Processed,
        },
    }
}

impl View for Filter {
    type V = FilterModel;

    closed spec fn view(&self) -> FilterModel {
        FilterModel {
            slots: self.slots@,
            accounts: self.accounts@,
            accounts_data_slices: self.accounts_data_slices@,
            transactions: self.transactions@,
            transactions_status: self.transactions_status@,
            entries: self.entries@,
            blocks_meta: self.blocks_meta@,
            blocks: self.blocks@,
            commitment: self.commitment,
        }
    }
}

/// Whether the places of the message lie within its buffer, and a transaction has a signature.
pub open spec fn filterable(message: MessageRef) -> bool {
    match message {
        MessageRef::Account(m) => m@.in_bounds(),
        MessageRef::Transaction(m) => m@.in_bounds() && m@.signed(),
        _ => true,
    }
}

/// Whether `updates` are the one update `filtered_update` for the filters `names`, or none where
/// there is no filter.
pub open spec fn updates_with(
    updates: Seq<FilteredUpdate>,
    names: Seq<Seq<char>>,
    filtered_update: FilteredUpdateType,
) -> bool {
    if names.len() == 0 {
        updates.len() == 0
    } else {
        updates.len() == 1 && update_with(Some(updates[0]), names, filtered_update)
    }
}

/// Whether no two of the filters have one name.
pub open spec fn apart<M>(filters: Seq<(Seq<char>, M)>) -> bool {
    forall|i: int, j: int|
        0 <= i < j < filters.len() ==> (#[trigger] filters[i]).0 != (#[trigger] filters[j]).0
}

/// Whether no two filters of a list have one name.
pub open spec fn named_apart(m: FilterModel) -> bool {
    &&& apart(m.slots)
    &&& apart(m.accounts)
    &&& apart(m.transactions)
    &&& apart(m.transactions_status)
    &&& m.entries.no_duplicates()
    &&& m.blocks_meta.no_duplicates()
    &&& apart(m.blocks)
}

/// Whether each name comes once in an update.
pub open spec fn named_once(updates: Seq<FilteredUpdate>) -> bool {
    forall|i: int|
        0 <= i < updates.len() ==> collections::names(
            (#[trigger] updates[i]).filters,
        ).no_duplicates()
}

/// A filter of a config whose names are apart has names apart.
pub proof fn law_names_apart(config: ConfigFilter)
    requires
        config.fits(),
    ensures
        named_apart(filter_model(config)),
{
    lemma_named_apart(config);
}

/// Filters with names apart ask for what has names apart.
proof fn lemma_named_apart(config: ConfigFilter)
    requires
        config.fits(),
    ensures
        named_apart(filter_model(config)),
{
    let m = filter_model(config);
    assert forall|i: int, j: int| 0 <= i < m.entries.len() && 0 <= j < m.entries.len() && i != j implies m.entries[i] != m.entries[j] by {
        assert(config.entries@[i]@ == m.entries[i] && config.entries@[j]@ == m.entries[j]);
    }
    assert forall|i: int, j: int| 0 <= i < m.blocks_meta.len() && 0 <= j < m.blocks_meta.len() && i != j implies m.blocks_meta[i] != m.blocks_meta[j] by {
        assert(config.blocks_meta@[i]@ == m.blocks_meta[i] && config.blocks_meta@[j]@
            == m.blocks_meta[j]);
    }
    assert forall|i: int, j: int| 0 <= i < j < m.slots.len() implies (#[trigger] m.slots[i]).0 != (#[trigger] m.slots[j]).0 by {
        assert(config.slots@[i].0@ != config.slots@[j].0@);
    }
    assert forall|i: int, j: int| 0 <= i < j < m.accounts.len() implies (#[trigger] m.accounts[i]).0 != (#[trigger] m.accounts[j]).0 by {
        assert(config.accounts@[i].0@ != config.accounts@[j].0@);
    }
    assert forall|i: int, j: int| 0 <= i < j < m.transactions.len() implies (#[trigger] m.transactions[i]).0 != (#[trigger] m.transactions[j]).0 by {
        assert(config.transactions@[i].0@ != config.transactions@[j].0@);
    }
    assert forall|i: int, j: int| 0 <= i < j < m.transactions_status.len() implies (#[trigger] m.transactions_status[i]).0 != (#[trigger] m.transactions_status[j]).0 by {
        assert(config.transactions_status@[i].0@ != config.transactions_status@[j].0@);
    }
    assert forall|i: int, j: int| 0 <= i < j < m.blocks.len() implies (#[trigger] m.blocks[i]).0 != (#[trigger] m.blocks[j]).0 by {
        assert(config.blocks@[i].0@ != config.blocks@[j].0@);
    }
}

impl Filter {
    /// The parts of account data that the subscriber asks for.
    pub closed spec fn data_slices(&self) -> &FilterAccountDataSlices {
        &self.accounts_data_slices
    }

    /// Transactions make transaction updates, transaction statuses make status updates, and no two filters
    /// of a list have one name.
    #[verifier::type_invariant]
    spec fn wf(&self) -> bool {
        &&& named_apart(self@)
        &&& self.transactions.kind() == FilterTransactionsType::Transaction
        &&& self.transactions_status.kind() == FilterTransactionsType::TransactionStatus
    }

    /// The filters of `config`.
    pub fn new(config: &ConfigFilter) -> (r: Self)
        requires
            config.fits(),
        ensures
            r@ == filter_model(*config),
    {
        let mut names = FilterNames::new();
        proof {
            lemma_named_apart(*config);
        }
        Filter {
            slots: FilterSlots::new(&mut names, &config.slots),
            accounts: FilterAccounts::new(&mut names, &config.accounts),
            accounts_data_slices: FilterAccountDataSlices::new(&config.accounts_data_slice),
            transactions: FilterTransactions::new(
                &mut names,
                &config.transactions,
                FilterTransactionsType::Transaction,
            ),
            transactions_status: FilterTransactions::new(
                &mut names,
                &config.transactions_status,
                FilterTransactionsType::TransactionStatus,
            ),
            entries: FilterEntries::new(&mut names, &config.entries),
            blocks_meta: FilterBlocksMeta::new(&mut names, &config.blocks_meta),
            blocks: FilterBlocks::new(&mut names, &config.blocks),
            commitment: match config.commitment {
                Some(c) => c,
                None => ConfigFilterCommitment::Processed,
            },
        }
    }

    /// Whether blocks are asked for.
    pub fn contains_blocks(&self) -> (r: bool)
        ensures
            r == (self@.blocks.len() > 0),
    {
        !self.blocks.is_empty()
    }

    /// How settled what is passed has to be.
    pub fn commitment(&self) -> (r: ConfigFilterCommitment)
        ensures
            r == self@.commitment,
    {
        self.commitment
    }

    /// The updates that the filters make of the message. Each name comes once in an update.
    pub fn get_updates<'a>(&'a self, message: &'a Message, commitment: CommitmentLevel) -> (r:
        UpdateList<'a>)
        requires
            filterable(crate::message::ref_of(message)),
        ensures
            self.makes(collections::updates(r), crate::message::ref_of(message), commitment),
            named_once(collections::updates(r)),
    {
        self.get_updates_ref(message.as_message_ref(), commitment)
    }

    /// Whether `updates` are what the filters make of the message: one update for all filters that
    /// pass it, a status update besides for those of transaction statuses, and of a block one update
    /// for each filter.
    pub open spec fn makes(
        &self,
        updates: Seq<FilteredUpdate>,
        message: MessageRef,
        commitment: CommitmentLevel,
    ) -> bool {
        match message {
            MessageRef::Slot(m) => updates_with(
                updates,
                matching(
                    self@.slots,
                    |f: FilterSlotsInner| f.passes(m@.status(), commitment),
                ),
                FilteredUpdateType::Slot { message: m },
            ),
            MessageRef::Account(m) => updates_with(
                updates,
                matching(self@.accounts, |f: AccountsModel| f.passes(m@.content().info)),
                FilteredUpdateType::Account { message: m, data_slices: self.data_slices() },
            ),
            MessageRef::Transaction(m) => {
                let names = matching(
                    self@.transactions,
                    |f: TransactionsModel| f.passes(m@),
                );
                let k: int = if names.len() == 0 {
                    0
                } else {
                    1
                };
                &&& k <= updates.len()
                &&& updates_with(
                    updates.take(k),
                    names,
                    FilteredUpdateType::Transaction { message: m },
                )
                &&& updates_with(
                    updates.skip(k),
                    matching(self@.transactions_status, |f: TransactionsModel| f.passes(m@)),
                    FilteredUpdateType::TransactionStatus { message: m },
                )
            },
            MessageRef::Entry(m) => updates_with(
                updates,
                self@.entries,
                FilteredUpdateType::Entry { message: m },
            ),
            MessageRef::BlockMeta(m) => updates_with(
                updates,
                self@.blocks_meta,
                FilteredUpdateType::BlockMeta { message: m },
            ),
            MessageRef::Block(m) => block_updates(
                updates,
                self@.blocks,
                m,
                self.data_slices(),
            ),
        }
    }

    /// The updates that the filters make of the message. Each name comes once in an update.
    pub fn get_updates_ref<'a>(
        &'a self,
        message: MessageRef<'a>,
        commitment: CommitmentLevel,
    ) -> (r: UpdateList<'a>)
        requires
            filterable(message),
        ensures
            self.makes(collections::updates(r), message, commitment),
            named_once(collections::updates(r)),
    {
        proof {
            use_type_invariant(self);
            assert forall|updates: Seq<FilteredUpdate>| #[trigger]
                self.makes(updates, message, commitment) implies named_once(updates) by {
                law_named_once(self, updates, message, commitment);
            }
        }
        let mut list = UpdateList::new();
        match message {
            MessageRef::Slot(m) => {
                if let Some(update) = self.slots.get_update(m, commitment) {
                    list.push(update);
                }
            },
            MessageRef::Account(m) => {
                if let Some(update) = self.accounts.get_update(m, &self.accounts_data_slices) {
                    list.push(update);
                }
            },
            MessageRef::Transaction(m) => {
                if let Some(update) = self.transactions.get_update(m) {
                    list.push(update);
                }
                let ghost first = collections::updates(list);
                if let Some(update) = self.transactions_status.get_update(m) {
                    list.push(update);
                }
                proof {
                    let all = collections::updates(list);
                    let k = first.len() as int;
                    assert(all.take(k) =~= first);
                }
            },
            MessageRef::Entry(m) => {
                if let Some(update) = self.entries.get_update(m) {
                    list.push(update);
                }
            },
            MessageRef::BlockMeta(m) => {
                if let Some(update) = self.blocks_meta.get_update(m) {
                    list.push(update);
                }
            },
            MessageRef::Block(m) => {
                return self.blocks.get_updates(m, &self.accounts_data_slices);
            },
        }
        list
    }
}

impl Default for Filter {
    /// The filter that asks for nothing.
    fn default() -> (r: Self)
        ensures
            r@.slots.len() == 0,
            r@.accounts.len() == 0,
            r@.accounts_data_slices.len() == 0,
            r@.transactions.len() == 0,
            r@.transactions_status.len() == 0,
            r@.entries.len() == 0,
            r@.blocks_meta.len() == 0,
            r@.blocks.len() == 0,
            r@.commitment == ConfigFilterCommitment::Processed,
    {
        Filter::new(&ConfigFilter::none())
    }
}

// ---------------------------------------------------------------------------------------------
// What holds of filters
// ---------------------------------------------------------------------------------------------

/// The names of an update are those of the filters that pass it, and no others.
pub proof fn law_matching<M>(
    filters: Seq<(Seq<char>, M)>,
    passes: spec_fn(M) -> bool,
    name: Seq<char>,
)
    ensures
        matching(filters, passes).contains(name) <==> exists|i: int|
            0 <= i < filters.len() && (#[trigger] filters[i]).0 == name && passes(filters[i].1),
    decreases filters.len(),
{
    if filters.len() > 0 {
        let rest = filters.drop_last();
        let before = matching(rest, passes);
        law_matching(rest, passes, name);
        if matching(filters, passes).contains(name) {
            if before.contains(name) {
                let i = choose|i: int|
                    0 <= i < rest.len() && (#[trigger] rest[i]).0 == name && passes(rest[i].1);
                assert(filters[i] == rest[i]);
            } else {
                assert(filters[filters.len() - 1].0 == name);
            }
        }
        if exists|i: int|
            0 <= i < filters.len() && (#[trigger] filters[i]).0 == name && passes(filters[i].1) {
            let i = choose|i: int|
                0 <= i < filters.len() && (#[trigger] filters[i]).0 == name && passes(filters[i].1);
            if i < rest.len() {
                assert(rest[i] == filters[i]);
                let j = choose|j: int| 0 <= j < before.len() && before[j] == name;
                assert(matching(filters, passes)[j] == name);
            } else {
                assert(matching(filters, passes)[before.len() as int] == name);
            }
        }
    }
}

/// Where no two filters have one name, no name comes twice among those that pass.
proof fn lemma_matching_once<M>(filters: Seq<(Seq<char>, M)>, passes: spec_fn(M) -> bool)
    requires
        apart(filters),
    ensures
        matching(filters, passes).no_duplicates(),
    decreases filters.len(),
{
    if filters.len() > 0 {
        let rest = filters.drop_last();
        let before = matching(rest, passes);
        assert forall|i: int, j: int| 0 <= i < j < rest.len() implies (#[trigger] rest[i]).0
            != (#[trigger] rest[j]).0 by {
            assert(rest[i] == filters[i] && rest[j] == filters[j]);
        }
        lemma_matching_once(rest, passes);
        law_matching(rest, passes, filters.last().0);
        if before.contains(filters.last().0) {
            let i = choose|i: int|
                0 <= i < rest.len() && (#[trigger] rest[i]).0 == filters.last().0 && passes(
                    rest[i].1,
                );
            assert(filters[i] == rest[i]);
            assert(filters[i].0 != filters[filters.len() - 1].0);
        }
    }
}

/// Where no two filters of a list have one name, each name comes once in an update.
pub proof fn law_named_once(
    filter: &Filter,
    updates: Seq<FilteredUpdate>,
    message: MessageRef,
    commitment: CommitmentLevel,
)
    requires
        named_apart(filter@),
        filter.makes(updates, message, commitment),
    ensures
        named_once(updates),
{
    match message {
        MessageRef::Slot(m) => {
            lemma_matching_once(
                filter@.slots,
                |f: FilterSlotsInner| f.passes(m@.status(), commitment),
            );
        },
        MessageRef::Account(m) => {
            lemma_matching_once(
                filter@.accounts,
                |f: AccountsModel| f.passes(m@.content().info),
            );
        },
        MessageRef::Transaction(m) => {
            let passes = |f: TransactionsModel| f.passes(m@);
            lemma_matching_once(filter@.transactions, passes);
            lemma_matching_once(filter@.transactions_status, passes);
            let k: int = if matching(filter@.transactions, passes).len() == 0 {
                0
            } else {
                1
            };
            assert forall|i: int| 0 <= i < updates.len() implies collections::names(
                (#[trigger] updates[i]).filters,
            ).no_duplicates() by {
                if i < k {
                    assert(updates.take(k)[i] == updates[i]);
                } else {
                    assert(updates.skip(k)[i - k] == updates[i]);
                }
            }
        },
        _ => {},
    }
}

/// The filter that asks for nothing makes no updates.
pub proof fn law_no_filter(
    filter: &Filter,
    updates: Seq<FilteredUpdate>,
    message: MessageRef,
    commitment: CommitmentLevel,
)
    requires
        filter@.slots.len() == 0,
        filter@.accounts.len() == 0,
        filter@.transactions.len() == 0,
        filter@.transactions_status.len() == 0,
        filter@.entries.len() == 0,
        filter@.blocks_meta.len() == 0,
        filter@.blocks.len() == 0,
        filter.makes(updates, message, commitment),
    ensures
        updates.len() == 0,
{
    if message is Transaction {
        assert(updates.take(0).len() == 0);
        assert(updates.skip(0) =~= updates);
    }
}

/// One part of the data is that part, where the data reaches that far, and nothing otherwise.
pub proof fn law_one_slice(start: nat, end: nat, data: Seq<u8>)
    requires
        start <= end,
    ensures
        slice_of(seq![(start, end)], data) == if end <= data.len() {
            data.subrange(start as int, end as int)
        } else {
            Seq::<u8>::empty()
        },
{
    let slices = seq![(start, end)];
    assert(slices.drop_last() =~= Seq::<(nat, nat)>::empty());
    reveal_with_fuel(sliced, 2);
    if end <= data.len() {
        assert(slice_of(slices, data) =~= data.subrange(start as int, end as int));
    } else {
        assert(slice_of(slices, data) =~= Seq::<u8>::empty());
    }
}

/// Where no part is asked for, all of the data is passed.
pub proof fn law_no_slice(data: Seq<u8>)
    ensures
        slice_of(Seq::empty(), data) == data,
{
}

/// The parts of data that a filter passes are those that were asked for, in order, each from its offset on
/// and as long as was said.
pub proof fn law_data_slices(filter: &Filter, config: ConfigFilter, i: int)
    requires
        filter@ == filter_model(config),
    ensures
        filter.data_slices()@.len() == config.accounts_data_slice@.len(),
        0 <= i < config.accounts_data_slice@.len() ==> {
            let slice = config.accounts_data_slice@[i];
            let (start, end) = filter.data_slices()@[i];
            start == slice.offset && end == slice.offset + slice.length
        },
{
    assert(filter@.accounts_data_slices == filter.data_slices()@);
}

} // verus!
