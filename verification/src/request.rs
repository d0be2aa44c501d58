//! Requests to subscribe, made from what the command line says.
use vstd::prelude::*;
use vstd::string::StringExecFns;

use crate::filter;
use crate::geyser;
use crate::geyser::CommitmentLevel;
use crate::text;

verus! {

/// Which slot updates to send.
#[derive(Debug, Clone, Copy, PartialEq, Eq, Structural)]
pub struct SubscribeRequestFilterSlots {
    pub filter_by_commitment: Option<bool>,
    pub interslot_updates: Option<bool>,
}

/// What the lamports of an account have to meet.
#[derive(Debug, Clone, Copy, PartialEq, Eq, Structural)]
pub enum AccountsFilterLamports {
    Eq(u64),
    Ne(u64),
    Lt(u64),
    Gt(u64),
}

/// What an account has to meet.
#[derive(Debug)]
pub enum AccountsFilterOneof {
    /// The data from the offset on starts with the bytes, which are given in base 58.
    Bytes { offset: u64, data: String },
    Datasize(u64),
    TokenAccountState(bool),
    Lamports(AccountsFilterLamports),
}

/// What an account has to meet.
pub ghost enum AccountsFilterView {
    Bytes { offset: u64, data: Seq<char> },
    Datasize(u64),
    TokenAccountState(bool),
    Lamports(AccountsFilterLamports),
}

impl View for AccountsFilterOneof {
    type V = AccountsFilterView;

    open spec fn view(&self) -> AccountsFilterView {
        match self {
            AccountsFilterOneof::Bytes { offset, data } => AccountsFilterView::Bytes {
                offset: *offset,
                data: data@,
            },
            AccountsFilterOneof::Datasize(size) => AccountsFilterView::Datasize(*size),
            AccountsFilterOneof::TokenAccountState(state) => AccountsFilterView::TokenAccountState(
                *state,
            ),
            AccountsFilterOneof::Lamports(lamports) => AccountsFilterView::Lamports(*lamports),
        }
    }
}

/// What each account has to meet.
pub open spec fn filter_views(filters: Seq<AccountsFilterOneof>) -> Seq<AccountsFilterView> {
    filters.map_values(|f: AccountsFilterOneof| f@)
}

/// Which account updates to send.
#[derive(Debug)]
pub struct SubscribeRequestFilterAccounts {
    pub account: Vec<String>,
    pub owner: Vec<String>,
    pub filters: Vec<AccountsFilterOneof>,
    pub nonempty_txn_signature: Option<bool>,
}

/// Which transaction updates to send.
#[derive(Debug)]
pub struct SubscribeRequestFilterTransactions {
    pub vote: Option<bool>,
    pub failed: Option<bool>,
    pub signature: Option<String>,
    pub account_include: Vec<String>,
    pub account_exclude: Vec<String>,
    pub account_required: Vec<String>,
}

/// Which parts of block updates to send.
#[derive(Debug)]
pub struct SubscribeRequestFilterBlocks {
    pub account_include: Vec<String>,
    pub include_transactions: Option<bool>,
    pub include_accounts: Option<bool>,
    pub include_entries: Option<bool>,
}

/// A part of the data of an account.
#[derive(Debug, Clone, Copy, PartialEq, Eq, Structural)]
pub struct SubscribeRequestAccountsDataSlice {
    pub offset: u64,
    pub length: u64,
}

/// A request to subscribe. The filters of each list go by name, and no name occurs twice in a list.
#[derive(Debug)]
pub struct SubscribeRequest {
    pub slots: Vec<(String, SubscribeRequestFilterSlots)>,
    pub accounts: Vec<(String, SubscribeRequestFilterAccounts)>,
    pub transactions: Vec<(String, SubscribeRequestFilterTransactions)>,
    pub transactions_status: Vec<(String, SubscribeRequestFilterTransactions)>,
    pub entry: Vec<String>,
    pub blocks: Vec<(String, SubscribeRequestFilterBlocks)>,
    pub blocks_meta: Vec<String>,
    pub commitment: Option<i32>,
    pub accounts_data_slice: Vec<SubscribeRequestAccountsDataSlice>,
    pub ping: Option<i32>,
    pub from_slot: Option<u64>,
}

/// A request to subscribe to accounts: those to add and those to remove, by their keys.
#[derive(Debug)]
pub struct SubscribeAccountsRequest {
    pub ping: Option<i32>,
    pub from_slot: Option<u64>,
    pub filter: String,
    pub add: Vec<Vec<u8>>,
    pub remove: Vec<Vec<u8>>,
}

/// How settled what is sent has to be, as the command line says it.
#[derive(Debug, Clone, Copy, PartialEq, Eq, Structural)]
pub enum ArgsCommitment {
    Processed,
    Confirmed,
    Finalized,
}

/// How settled what is sent has to be.
pub open spec fn commitment_level(commitment: ArgsCommitment) -> CommitmentLevel {
    match commitment {
        ArgsCommitment::Processed => CommitmentLevel::Processed,
        ArgsCommitment::Confirmed => CommitmentLevel::Confirmed,
        ArgsCommitment::Finalized => CommitmentLevel::Finalized,
    }
}

impl Default for ArgsCommitment {
    fn default() -> (r: Self)
        ensures
            r == ArgsCommitment::Processed,
    {
        ArgsCommitment::Processed
    }
}

impl From<ArgsCommitment> for CommitmentLevel {
    fn from(commitment: ArgsCommitment) -> (r: Self) {
        match commitment {
            ArgsCommitment::Processed => CommitmentLevel::Processed,
            ArgsCommitment::Confirmed => CommitmentLevel::Confirmed,
            ArgsCommitment::Finalized => CommitmentLevel::Finalized,
        }
    }
}

impl vstd::std_specs::convert::FromSpecImpl<ArgsCommitment> for CommitmentLevel {
    open spec fn obeys_from_spec() -> bool {
        true
    }

    open spec fn from_spec(commitment: ArgsCommitment) -> CommitmentLevel {
        commitment_level(commitment)
    }
}

/// How settled what is sent has to be: processed, where nothing is said.
pub open spec fn asked_level(commitment: Option<ArgsCommitment>) -> CommitmentLevel {
    match commitment {
        Some(c) => commitment_level(c),
        None => CommitmentLevel::Processed,
    }
}

/// How settled what is sent has to be: processed, where nothing is said.
pub fn get_commitment(commitment: Option<ArgsCommitment>) -> (r: Option<CommitmentLevel>)
    ensures
        r == Some(asked_level(commitment)),
        r == Some(
            match commitment {
                Some(c) => commitment_level(c),
                None => CommitmentLevel::Processed,
            },
        ),
{
    let commitment = match commitment {
        Some(commitment) => commitment,
        None => ArgsCommitment::default(),
    };
    Some(CommitmentLevel::from(commitment))
}

/// The number that stands for a level.
pub open spec fn level_number(level: CommitmentLevel) -> i32 {
    match level {
        CommitmentLevel::Processed => 0,
        CommitmentLevel::Confirmed => 1,
        CommitmentLevel::Finalized => 2,
    }
}

/// Why there is no request.
#[derive(Debug)]
pub enum RequestError {
    /// The offset of bytes to compare with is no number.
    InvalidOffset,
    /// Bytes to compare with have no offset.
    InvalidBytes,
    /// The amount of lamports is no number.
    InvalidLamportsValue(String),
    /// The way to compare lamports is none.
    InvalidLamportsFilter(String),
    /// An amount of lamports comes without a way to compare them.
    InvalidLamports,
    /// A part of the data is none.
    InvalidDataSlice,
    /// A public key is none.
    InvalidPubkey(String),
}

/// Why there is no request.
pub ghost enum RequestFailure {
    InvalidOffset,
    InvalidBytes,
    InvalidLamportsValue(Seq<char>),
    InvalidLamportsFilter(Seq<char>),
    InvalidLamports,
    InvalidDataSlice,
    InvalidPubkey(Seq<char>),
}

impl View for RequestError {
    type V = RequestFailure;

    open spec fn view(&self) -> RequestFailure {
        match self {
            RequestError::InvalidOffset => RequestFailure::InvalidOffset,
            RequestError::InvalidBytes => RequestFailure::InvalidBytes,
            RequestError::InvalidLamportsValue(value) => RequestFailure::InvalidLamportsValue(
                value@,
            ),
            RequestError::InvalidLamportsFilter(way) => RequestFailure::InvalidLamportsFilter(way@),
            RequestError::InvalidLamports => RequestFailure::InvalidLamports,
            RequestError::InvalidDataSlice => RequestFailure::InvalidDataSlice,
            RequestError::InvalidPubkey(key) => RequestFailure::InvalidPubkey(key@),
        }
    }
}

impl RequestFailure {
    /// What to say of it.
    pub open spec fn text(self) -> Seq<char> {
        match self {
            RequestFailure::InvalidOffset => "invalid offset"@,
            RequestFailure::InvalidBytes => "invalid memcmp"@,
            RequestFailure::InvalidLamportsValue(value) => "invalid lamports value: "@ + value,
            RequestFailure::InvalidLamportsFilter(way) => "invalid lamports filter: "@ + way,
            RequestFailure::InvalidLamports => "invalid lamports"@,
            RequestFailure::InvalidDataSlice => "invalid data_slice"@,
            RequestFailure::InvalidPubkey(key) => "invalid pubkey: "@ + key,
        }
    }
}

impl RequestError {
    /// What to say of it.
    pub fn message(&self) -> (r: String)
        ensures
            r@ == self@.text(),
    {
        match self {
            RequestError::InvalidOffset => "invalid offset".to_owned(),
            RequestError::InvalidBytes => "invalid memcmp".to_owned(),
            RequestError::InvalidLamportsValue(value) => "invalid lamports value: ".to_owned().concat(
                value.as_str(),
            ),
            RequestError::InvalidLamportsFilter(way) => "invalid lamports filter: ".to_owned().concat(
                way.as_str(),
            ),
            RequestError::InvalidLamports => "invalid lamports".to_owned(),
            RequestError::InvalidDataSlice => "invalid data_slice".to_owned(),
            RequestError::InvalidPubkey(key) => "invalid pubkey: ".to_owned().concat(key.as_str()),
        }
    }
}

/// The results, where all of them are there; else the first failure.
pub open spec fn collected<T>(results: Seq<Result<T, RequestFailure>>) -> Result<
    Seq<T>,
    RequestFailure,
>
    decreases results.len(),
{
    if results.len() == 0 {
        Ok(Seq::empty())
    } else {
        match collected(results.drop_last()) {
            Err(e) => Err(e),
            Ok(items) => match results.last() {
                Ok(item) => Ok(items.push(item)),
                Err(e) => Err(e),
            },
        }
    }
}

proof fn lemma_first_failure<T>(results: Seq<Result<T, RequestFailure>>, i: int)
    requires
        0 <= i <= results.len(),
        collected(results.take(i)) is Err,
    ensures
        collected(results) == Err::<Seq<T>, RequestFailure>(collected(results.take(i))->Err_0),
    decreases results.len() - i,
{
    if i < results.len() {
        assert(results.take(i + 1).drop_last() =~= results.take(i));
        lemma_first_failure(results, i + 1);
    } else {
        assert(results.take(i) =~= results);
    }
}

/// What `offset,data` says.
pub open spec fn bytes_filter(text: Seq<char>) -> Result<AccountsFilterView, RequestFailure> {
    match text::halves(text, ',') {
        Some((offset, data)) => match text::number_u64(offset) {
            Some(offset) => Ok(AccountsFilterView::Bytes { offset, data: text::trimmed(data) }),
            None => Err(RequestFailure::InvalidOffset),
        },
        None => Err(RequestFailure::InvalidBytes),
    }
}

/// What `eq:value`, `ne:value`, `lt:value` or `gt:value` says.
pub open spec fn lamports_filter(text: Seq<char>) -> Result<AccountsFilterView, RequestFailure> {
    match text::halves(text, ':') {
        Some((way, value)) => match text::number_u64(value) {
            Some(v) => if way == "eq"@ {
                Ok(AccountsFilterView::Lamports(AccountsFilterLamports::Eq(v)))
            } else if way == "ne"@ {
                Ok(AccountsFilterView::Lamports(AccountsFilterLamports::Ne(v)))
            } else if way == "lt"@ {
                Ok(AccountsFilterView::Lamports(AccountsFilterLamports::Lt(v)))
            } else if way == "gt"@ {
                Ok(AccountsFilterView::Lamports(AccountsFilterLamports::Gt(v)))
            } else {
                Err(RequestFailure::InvalidLamportsFilter(way))
            },
            None => Err(RequestFailure::InvalidLamportsValue(value)),
        },
        None => Err(RequestFailure::InvalidLamports),
    }
}

/// What `offset,length` says.
pub open spec fn data_slice(text: Seq<char>) -> Result<
    SubscribeRequestAccountsDataSlice,
    RequestFailure,
> {
    match text::halves(text, ',') {
        Some((offset, length)) => match (text::number_u64(offset), text::number_u64(length)) {
            (Some(offset), Some(length)) => Ok(
                SubscribeRequestAccountsDataSlice { offset, length },
            ),
            _ => Err(RequestFailure::InvalidDataSlice),
        },
        None => Err(RequestFailure::InvalidDataSlice),
    }
}

/// What `offset,data` says.
fn parse_bytes_filter(filter: &str) -> (r: Result<AccountsFilterOneof, RequestError>)
    ensures
        match bytes_filter(filter@) {
            Ok(f) => r is Ok && r->Ok_0@ == f,
            Err(e) => r is Err && r->Err_0@ == e,
        },
{
    match text::split_once(filter, ',') {
        Some((offset, data)) => match text::parse_u64(offset) {
            Some(offset) => Ok(
                AccountsFilterOneof::Bytes { offset, data: text::trim(data).to_owned() },
            ),
            None => Err(RequestError::InvalidOffset),
        },
        None => Err(RequestError::InvalidBytes),
    }
}

/// What `eq:value`, `ne:value`, `lt:value` or `gt:value` says.
fn parse_lamports_filter(filter: &str) -> (r: Result<AccountsFilterOneof, RequestError>)
    ensures
        match lamports_filter(filter@) {
            Ok(f) => r is Ok && r->Ok_0@ == f,
            Err(e) => r is Err && r->Err_0@ == e,
        },
{
    match text::split_once(filter, ':') {
        Some((way, text)) => {
            let value = match text::parse_u64(text) {
                Some(value) => value,
                None => return Err(RequestError::InvalidLamportsValue(text.to_owned())),
            };
            let lamports = if filter::same_text(way, "eq") {
                AccountsFilterLamports::Eq(value)
            } else if filter::same_text(way, "ne") {
                AccountsFilterLamports::Ne(value)
            } else if filter::same_text(way, "lt") {
                AccountsFilterLamports::Lt(value)
            } else if filter::same_text(way, "gt") {
                AccountsFilterLamports::Gt(value)
            } else {
                return Err(RequestError::InvalidLamportsFilter(way.to_owned()));
            };
            Ok(AccountsFilterOneof::Lamports(lamports))
        },
        None => Err(RequestError::InvalidLamports),
    }
}

/// What `offset,length` says.
fn parse_data_slice(slice: &str) -> (r: Result<SubscribeRequestAccountsDataSlice, RequestError>)
    ensures
        match data_slice(slice@) {
            Ok(s) => r is Ok && r->Ok_0 == s,
            Err(e) => r is Err && r->Err_0@ == e,
        },
{
    match text::split_once(slice, ',') {
        Some((offset, length)) => match (text::parse_u64(offset), text::parse_u64(length)) {
            (Some(offset), Some(length)) => Ok(SubscribeRequestAccountsDataSlice { offset, length }),
            _ => Err(RequestError::InvalidDataSlice),
        },
        None => Err(RequestError::InvalidDataSlice),
    }
}

/// What the command line says of a subscription.
#[derive(Debug)]
pub struct ActionSubscribe {
    /// Subscribe on accounts updates
    pub accounts: bool,
    /// Filter by presence of field txn_signature
    pub accounts_nonempty_txn_signature: Option<bool>,
    /// Filter by Account Pubkey
    pub accounts_account: Vec<String>,
    /// Filter by Owner Pubkey
    pub accounts_owner: Vec<String>,
    /// Filter by Offset and Data, format: `offset,data in base58`
    pub accounts_bytes: Vec<String>,
    /// Filter by Data size
    pub accounts_datasize: Option<u64>,
    /// Filter valid token accounts
    pub accounts_token_account_state: bool,
    /// Filter by lamports, format: `eq:42` / `ne:42` / `lt:42` / `gt:42`
    pub accounts_lamports: Vec<String>,
    /// Receive only part of updated data account, format: `offset,size`
    pub accounts_data_slice: Vec<String>,
    /// Subscribe on slots updates
    pub slots: bool,
    /// Filter slots by commitment
    pub slots_filter_by_commitment: Option<bool>,
    /// Subscribe on interslot slot updates
    pub slots_interslot_updates: Option<bool>,
    /// Subscribe on transactions updates
    pub transactions: bool,
    /// Which transactions updates
    pub transactions_filter: SubscribeRequestFilterTransactions,
    /// Subscribe on transactions_status updates
    pub transactions_status: bool,
    /// Which transactions_status updates
    pub transactions_status_filter: SubscribeRequestFilterTransactions,
    /// Subscribe on entries updates
    pub entries: bool,
    /// Subscribe on block updates
    pub blocks: bool,
    /// Which parts of block updates
    pub blocks_filter: SubscribeRequestFilterBlocks,
    /// Subscribe on block meta updates (without transactions)
    pub blocks_meta: bool,
    /// Re-send message from slot
    pub from_slot: Option<u64>,
    /// Send ping in subscribe request
    pub ping: Option<i32>,
    /// Show total stat instead of messages
    pub stats: bool,
    /// Verify manually implemented encoding against prost
    pub verify_encoding: bool,
}

/// Whether the list holds the filter under the name `client`, and none where it is off.
pub open spec fn holds<T>(list: Seq<(String, T)>, on: bool, filter: T) -> bool {
    if on {
        list.len() == 1 && list[0].0@ == "client"@ && list[0].1 == filter
    } else {
        list.len() == 0
    }
}

/// Whether the list holds the name `client`, and none where it is off.
pub open spec fn holds_name(list: Seq<String>, on: bool) -> bool {
    if on {
        list.len() == 1 && list[0]@ == "client"@
    } else {
        list.len() == 0
    }
}

impl ActionSubscribe {
    /// What an account has to meet: the bytes of its data, the size of its data, the state of a token
    /// account, and its lamports.
    pub open spec fn account_filters(&self) -> Result<Seq<AccountsFilterView>, RequestFailure> {
        let bytes = collected(
            geyser::text_each(self.accounts_bytes@).map_values(|t: Seq<char>| bytes_filter(t)),
        );
        let lamports = collected(
            geyser::text_each(self.accounts_lamports@).map_values(
                |t: Seq<char>| lamports_filter(t),
            ),
        );
        let size = match self.accounts_datasize {
            Some(size) => seq![AccountsFilterView::Datasize(size)],
            None => Seq::empty(),
        };
        let state = if self.accounts_token_account_state {
            seq![AccountsFilterView::TokenAccountState(true)]
        } else {
            Seq::empty()
        };
        match (bytes, lamports) {
            (Err(e), _) => Err(e),
            (_, Err(e)) => Err(e),
            (Ok(bytes), Ok(lamports)) => Ok(bytes + size + state + lamports),
        }
    }

    /// The parts of the data of accounts to send.
    pub open spec fn data_slices(&self) -> Result<
        Seq<SubscribeRequestAccountsDataSlice>,
        RequestFailure,
    > {
        collected(
            geyser::text_each(self.accounts_data_slice@).map_values(|t: Seq<char>| data_slice(t)),
        )
    }

    /// Why there is no request, where there is none: filters of accounts count only where accounts
    /// are subscribed to.
    pub open spec fn failure(&self) -> Option<RequestFailure> {
        match (self.account_filters(), self.data_slices()) {
            (Err(e), Err(e2)) => Some(
                if self.accounts {
                    e
                } else {
                    e2
                },
            ),
            (Err(e), Ok(_)) => if self.accounts {
                Some(e)
            } else {
                None
            },
            (Ok(_), Err(e)) => Some(e),
            (Ok(_), Ok(_)) => None,
        }
    }

    /// Whether this is the request that is asked for. `listed` are the accounts that a file lists.
    pub open spec fn requests(
        &self,
        commitment: Option<CommitmentLevel>,
        listed: Seq<String>,
        request: SubscribeRequest,
    ) -> bool {
        &&& if self.accounts {
            &&& request.accounts@.len() == 1
            &&& request.accounts@[0].0@ == "client"@
            &&& request.accounts@[0].1.account@ == self.accounts_account@ + listed
            &&& request.accounts@[0].1.owner == self.accounts_owner
            &&& self.account_filters() == Ok::<Seq<AccountsFilterView>, RequestFailure>(
                filter_views(request.accounts@[0].1.filters@),
            )
            &&& request.accounts@[0].1.nonempty_txn_signature == self.accounts_nonempty_txn_signature
        } else {
            request.accounts@.len() == 0
        }
        &&& holds(
            request.slots@,
            self.slots,
            (SubscribeRequestFilterSlots {
                filter_by_commitment: self.slots_filter_by_commitment,
                interslot_updates: self.slots_interslot_updates,
            }),
        )
        &&& holds(request.transactions@, self.transactions, self.transactions_filter)
        &&& holds(
            request.transactions_status@,
            self.transactions_status,
            self.transactions_status_filter,
        )
        &&& holds_name(request.entry@, self.entries)
        &&& holds(request.blocks@, self.blocks, self.blocks_filter)
        &&& holds_name(request.blocks_meta@, self.blocks_meta)
        &&& request.commitment == match commitment {
            Some(level) => Some(level_number(level)),
            None => None,
        }
        &&& self.data_slices() == Ok::<Seq<SubscribeRequestAccountsDataSlice>, RequestFailure>(
            request.accounts_data_slice@,
        )
        &&& request.ping == self.ping
        &&& request.from_slot == self.from_slot
    }

    /// What an account has to meet.
    fn parse_account_filters(&self) -> (r: Result<Vec<AccountsFilterOneof>, RequestError>)
        ensures
            match self.account_filters() {
                Ok(filters) => r is Ok && filter_views(r->Ok_0@) == filters,
                Err(e) => r is Err && r->Err_0@ == e,
            },
    {
        let ghost bytes = geyser::text_each(self.accounts_bytes@).map_values(
            |t: Seq<char>| bytes_filter(t),
        );
        let ghost lamports = geyser::text_each(self.accounts_lamports@).map_values(
            |t: Seq<char>| lamports_filter(t),
        );
        let mut filters: Vec<AccountsFilterOneof> = Vec::new();
        let mut i: usize = 0;
        proof {
            assert(bytes.take(0) =~= Seq::empty());
            assert(filter_views(filters@) =~= Seq::empty());
        }
        while i < self.accounts_bytes.len()
            invariant
                i <= self.accounts_bytes@.len(),
                bytes == geyser::text_each(self.accounts_bytes@).map_values(
                    |t: Seq<char>| bytes_filter(t),
                ),
                collected(bytes.take(i as int)) == Ok::<Seq<AccountsFilterView>, RequestFailure>(
                    filter_views(filters@),
                ),
            decreases self.accounts_bytes@.len() - i,
        {
            proof {
                assert(bytes.take(i + 1).drop_last() =~= bytes.take(i as int));
                assert(bytes.take(i + 1).last() == bytes_filter(self.accounts_bytes@[i as int]@));
            }
            match parse_bytes_filter(self.accounts_bytes[i].as_str()) {
                Ok(filter) => {
                    let ghost before = filter_views(filters@);
                    filters.push(filter);
                    assert(filter_views(filters@) =~= before.push(filter@));
                },
                Err(e) => {
                    proof {
                        lemma_first_failure(bytes, i + 1);
                    }
                    return Err(e);
                },
            }
            i = i + 1;
        }
        assert(bytes.take(i as int) =~= bytes);
        let ghost first = filter_views(filters@);
        if let Some(size) = self.accounts_datasize {
            filters.push(AccountsFilterOneof::Datasize(size));
        }
        if self.accounts_token_account_state {
            filters.push(AccountsFilterOneof::TokenAccountState(true));
        }
        let ghost so_far = filter_views(filters@);
        proof {
            let size = match self.accounts_datasize {
                Some(size) => seq![AccountsFilterView::Datasize(size)],
                None => Seq::empty(),
            };
            let state = if self.accounts_token_account_state {
                seq![AccountsFilterView::TokenAccountState(true)]
            } else {
                Seq::empty()
            };
            assert(so_far =~= first + size + state);
            assert(lamports.take(0) =~= Seq::empty());
            assert(so_far + Seq::<AccountsFilterView>::empty() =~= so_far);
        }
        let mut i: usize = 0;
        while i < self.accounts_lamports.len()
            invariant
                i <= self.accounts_lamports@.len(),
                lamports == geyser::text_each(self.accounts_lamports@).map_values(
                    |t: Seq<char>| lamports_filter(t),
                ),
                collected(lamports.take(i as int)) is Ok,
                filter_views(filters@) == so_far + collected(lamports.take(i as int))->Ok_0,
                bytes == geyser::text_each(self.accounts_bytes@).map_values(
                    |t: Seq<char>| bytes_filter(t),
                ),
                collected(bytes) is Ok,
            decreases self.accounts_lamports@.len() - i,
        {
            proof {
                assert(lamports.take(i + 1).drop_last() =~= lamports.take(i as int));
                assert(lamports.take(i + 1).last() == lamports_filter(
                    self.accounts_lamports@[i as int]@,
                ));
            }
            match parse_lamports_filter(self.accounts_lamports[i].as_str()) {
                Ok(filter) => {
                    let ghost before = filter_views(filters@);
                    filters.push(filter);
                    assert(filter_views(filters@) =~= before.push(filter@));
                    assert(filter_views(filters@) =~= so_far + collected(
                        lamports.take(i + 1),
                    )->Ok_0);
                },
                Err(e) => {
                    proof {
                        lemma_first_failure(lamports, i + 1);
                    }
                    return Err(e);
                },
            }
            i = i + 1;
        }
        assert(lamports.take(i as int) =~= lamports);
        Ok(filters)
    }

    /// The parts of the data of accounts to send.
    fn parse_data_slices(&self) -> (r: Result<Vec<SubscribeRequestAccountsDataSlice>, RequestError>)
        ensures
            match self.data_slices() {
                Ok(slices) => r is Ok && r->Ok_0@ == slices,
                Err(e) => r is Err && r->Err_0@ == e,
            },
    {
        let ghost results = geyser::text_each(self.accounts_data_slice@).map_values(
            |t: Seq<char>| data_slice(t),
        );
        let mut slices: Vec<SubscribeRequestAccountsDataSlice> = Vec::new();
        let mut i: usize = 0;
        assert(results.take(0) =~= Seq::empty());
        while i < self.accounts_data_slice.len()
            invariant
                i <= self.accounts_data_slice@.len(),
                results == geyser::text_each(self.accounts_data_slice@).map_values(
                    |t: Seq<char>| data_slice(t),
                ),
                collected(results.take(i as int)) == Ok::<
                    Seq<SubscribeRequestAccountsDataSlice>,
                    RequestFailure,
                >(slices@),
            decreases self.accounts_data_slice@.len() - i,
        {
            proof {
                assert(results.take(i + 1).drop_last() =~= results.take(i as int));
                assert(results.take(i + 1).last() == data_slice(
                    self.accounts_data_slice@[i as int]@,
                ));
            }
            match parse_data_slice(self.accounts_data_slice[i].as_str()) {
                Ok(slice) => {
                    slices.push(slice);
                },
                Err(e) => {
                    proof {
                        lemma_first_failure(results, i + 1);
                    }
                    return Err(e);
                },
            }
            i = i + 1;
        }
        assert(results.take(i as int) =~= results);
        Ok(slices)
    }

    /// The request, whether to show statistics, and whether to verify the encoding. `listed` are the
    /// accounts that a file lists.
    pub fn get_subscribe_request(
        self,
        commitment: Option<CommitmentLevel>,
        listed: Vec<String>,
    ) -> (r: Result<(SubscribeRequest, bool, bool), RequestError>)
        ensures
            r matches Ok((request, _, _)) ==> self.requests(commitment, listed@, request),
            match self.failure() {
                Some(e) => r is Err && r->Err_0@ == e,
                None => r is Ok && {
                    let (request, stats, verify_encoding) = r->Ok_0;
                    &&& stats == self.stats
                    &&& verify_encoding == self.verify_encoding
                    &&& if self.accounts {
                        &&& request.accounts@.len() == 1
                        &&& request.accounts@[0].0@ == "client"@
                        &&& request.accounts@[0].1.account@ == self.accounts_account@ + listed@
                        &&& request.accounts@[0].1.owner == self.accounts_owner
                        &&& self.account_filters() is Ok
                        &&& filter_views(request.accounts@[0].1.filters@)
                            == self.account_filters()->Ok_0
                        &&& request.accounts@[0].1.nonempty_txn_signature
                            == self.accounts_nonempty_txn_signature
                    } else {
                        request.accounts@.len() == 0
                    }
                    &&& holds(
                        request.slots@,
                        self.slots,
                        (SubscribeRequestFilterSlots {
                            filter_by_commitment: self.slots_filter_by_commitment,
                            interslot_updates: self.slots_interslot_updates,
                        }),
                    )
                    &&& holds(request.transactions@, self.transactions, self.transactions_filter)
                    &&& holds(
                        request.transactions_status@,
                        self.transactions_status,
                        self.transactions_status_filter,
                    )
                    &&& holds_name(request.entry@, self.entries)
                    &&& holds(request.blocks@, self.blocks, self.blocks_filter)
                    &&& holds_name(request.blocks_meta@, self.blocks_meta)
                    &&& request.commitment == match commitment {
                        Some(level) => Some(level_number(level)),
                        None => None,
                    }
                    &&& self.data_slices() == Ok::<
                        Seq<SubscribeRequestAccountsDataSlice>,
                        RequestFailure,
                    >(request.accounts_data_slice@)
                    &&& request.ping == self.ping
                    &&& request.from_slot == self.from_slot
                },
            },
    {
        let account_filters: Vec<AccountsFilterOneof> = if self.accounts {
            match self.parse_account_filters() {
                Ok(filters) => filters,
                Err(e) => return Err(e),
            }
        } else {
            Vec::new()
        };
        let accounts_data_slice = match self.parse_data_slices() {
            Ok(slices) => slices,
            Err(e) => return Err(e),
        };

        let mut accounts: Vec<(String, SubscribeRequestFilterAccounts)> = Vec::new();
        if self.accounts {
            let mut account = self.accounts_account;
            let mut listed = listed;
            account.append(&mut listed);
            accounts.push(
                (
                    "client".to_owned(),
                    SubscribeRequestFilterAccounts {
                        account,
                        owner: self.accounts_owner,
                        filters: account_filters,
                        nonempty_txn_signature: self.accounts_nonempty_txn_signature,
                    },
                ),
            );
        }
        let mut slots: Vec<(String, SubscribeRequestFilterSlots)> = Vec::new();
        if self.slots {
            slots.push(
                (
                    "client".to_owned(),
                    SubscribeRequestFilterSlots {
                        filter_by_commitment: self.slots_filter_by_commitment,
                        interslot_updates: self.slots_interslot_updates,
                    },
                ),
            );
        }
        let mut transactions: Vec<(String, SubscribeRequestFilterTransactions)> = Vec::new();
        if self.transactions {
            transactions.push(("client".to_owned(), self.transactions_filter));
        }
        let mut transactions_status: Vec<(String, SubscribeRequestFilterTransactions)> = Vec::new();
        if self.transactions_status {
            transactions_status.push(("client".to_owned(), self.transactions_status_filter));
        }
        let mut entry: Vec<String> = Vec::new();
        if self.entries {
            entry.push("client".to_owned());
        }
        let mut blocks: Vec<(String, SubscribeRequestFilterBlocks)> = Vec::new();
        if self.blocks {
            blocks.push(("client".to_owned(), self.blocks_filter));
        }
        let mut blocks_meta: Vec<String> = Vec::new();
        if self.blocks_meta {
            blocks_meta.push("client".to_owned());
        }
        let commitment: Option<i32> = match commitment {
            Some(CommitmentLevel::Processed) => Some(0),
            Some(CommitmentLevel::Confirmed) => Some(1),
            Some(CommitmentLevel::Finalized) => Some(2),
            None => None,
        };
        let request = SubscribeRequest {
            slots,
            accounts,
            transactions,
            transactions_status,
            entry,
            blocks,
            blocks_meta,
            commitment,
            accounts_data_slice,
            ping: self.ping,
            from_slot: self.from_slot,
        };
        Ok((request, self.stats, self.verify_encoding))
    }
}

/// What the command line says of a subscription to accounts.
#[derive(Debug)]
pub struct ActionSubscribeAccounts {
    /// Send ping in subscribe request
    pub ping: Option<i32>,
    /// Re-send message from slot
    pub from_slot: Option<u64>,
    /// Filter name
    pub filter: String,
    /// Filter by Account Pubkey
    pub account: Vec<String>,
    /// Show total stat instead of messages
    pub stats: bool,
    /// Verify manually implemented encoding against prost
    pub verify_encoding: bool,
}

/// Whether the text is a public key.
pub open spec fn is_key(text: Seq<char>) -> bool {
    exists|bytes: Seq<u8>| bytes.len() == 32 && text == #[trigger] text::base58(bytes)
}

/// Whether the texts before `i` are public keys, and the one at `i` is none.
pub open spec fn first_no_key(texts: Seq<String>, i: int) -> bool {
    &&& 0 <= i < texts.len()
    &&& !is_key(texts[i]@)
    &&& forall|j: int| 0 <= j < i ==> is_key(#[trigger] texts[j]@)
}

/// The public keys that the texts are.
pub fn parse_keys(texts: &Vec<String>) -> (r: Result<Vec<Vec<u8>>, RequestError>)
    ensures
        match r {
            Ok(keys) => {
                &&& keys@.len() == texts@.len()
                &&& forall|i: int|
                    0 <= i < keys@.len() ==> (#[trigger] keys@[i])@.len() == 32
                        && text::base58(keys@[i]@) == texts@[i]@
            },
            Err(e) => exists|i: int| #[trigger]
                first_no_key(texts@, i) && e@ == RequestFailure::InvalidPubkey(texts@[i]@),
        },
{
    let mut keys: Vec<Vec<u8>> = Vec::new();
    let mut i: usize = 0;
    while i < texts.len()
        invariant
            i <= texts@.len(),
            keys@.len() == i,
            forall|j: int|
                0 <= j < i ==> (#[trigger] keys@[j])@.len() == 32 && text::base58(keys@[j]@)
                    == texts@[j]@,
        decreases texts@.len() - i,
    {
        match text::parse_pubkey(texts[i].as_str()) {
            Some(key) => {
                keys.push(vstd::slice::slice_to_vec(key.as_slice()));
            },
            None => {
                proof {
                    assert forall|j: int| 0 <= j < i implies is_key(#[trigger] texts@[j]@) by {
                        assert(keys@[j]@.len() == 32);
                    }
                    assert(first_no_key(texts@, i as int));
                }
                return Err(RequestError::InvalidPubkey(texts[i].as_str().to_owned()));
            },
        }
        i = i + 1;
    }
    Ok(keys)
}

impl ActionSubscribeAccounts {
    /// The request, whether to show statistics, and whether to verify the encoding. `listed` are the
    /// accounts that a file lists.
    pub fn get_subscribe_request(self, listed: Vec<String>) -> (r: Result<
        (SubscribeAccountsRequest, bool, bool),
        RequestError,
    >)
        ensures
            match r {
                Ok((request, stats, verify_encoding)) => {
                    let texts = self.account@ + listed@;
                    &&& stats == self.stats
                    &&& verify_encoding == self.verify_encoding
                    &&& request.ping == self.ping
                    &&& request.from_slot == self.from_slot
                    &&& request.filter == self.filter
                    &&& request.add@.len() == texts.len()
                    &&& forall|i: int|
                        0 <= i < texts.len() ==> (#[trigger] request.add@[i])@.len() == 32
                            && text::base58(request.add@[i]@) == texts[i]@
                    &&& request.remove@.len() == 0
                },
                Err(e) => exists|i: int| #[trigger]
                    first_no_key(self.account@ + listed@, i) && e@ == RequestFailure::InvalidPubkey(
                        (self.account@ + listed@)[i]@,
                    ),
            },
    {
        let mut accounts = self.account;
        let mut listed = listed;
        accounts.append(&mut listed);
        match parse_keys(&accounts) {
            Ok(add) => Ok(
                (
                    SubscribeAccountsRequest {
                        ping: self.ping,
                        from_slot: self.from_slot,
                        filter: self.filter,
                        add,
                        remove: Vec::new(),
                    },
                    self.stats,
                    self.verify_encoding,
                ),
            ),
            Err(e) => Err(e),
        }
    }
}

// ---------------------------------------------------------------------------------------------
// What holds of requests
// ---------------------------------------------------------------------------------------------

impl AccountsFilterLamports {
    /// Whether an account with so many lamports is one that is asked for.
    pub open spec fn holds_of(self, lamports: u64) -> bool {
        match self {
            AccountsFilterLamports::Eq(value) => lamports == value,
            AccountsFilterLamports::Ne(value) => lamports != value,
            AccountsFilterLamports::Lt(value) => lamports < value,
            AccountsFilterLamports::Gt(value) => lamports > value,
        }
    }
}

/// A way to compare and an amount, with a colon between them, ask for the accounts whose lamports compare
/// with the amount in that way. The four ways ask for different accounts.
pub proof fn law_lamports_filter(value: Seq<char>, n: u64)
    requires
        text::number_u64(value) == Some(n),
    ensures
        lamports_filter("eq"@.push(':') + value) == Ok::<AccountsFilterView, RequestFailure>(
            AccountsFilterView::Lamports(AccountsFilterLamports::Eq(n)),
        ),
        lamports_filter("ne"@.push(':') + value) == Ok::<AccountsFilterView, RequestFailure>(
            AccountsFilterView::Lamports(AccountsFilterLamports::Ne(n)),
        ),
        lamports_filter("lt"@.push(':') + value) == Ok::<AccountsFilterView, RequestFailure>(
            AccountsFilterView::Lamports(AccountsFilterLamports::Lt(n)),
        ),
        lamports_filter("gt"@.push(':') + value) == Ok::<AccountsFilterView, RequestFailure>(
            AccountsFilterView::Lamports(AccountsFilterLamports::Gt(n)),
        ),
{
    reveal_strlit("eq");
    reveal_strlit("ne");
    reveal_strlit("lt");
    reveal_strlit("gt");
    assert("eq"@ =~= seq!['e', 'q'] && "ne"@ =~= seq!['n', 'e'] && "lt"@ =~= seq!['l', 't']
        && "gt"@ =~= seq!['g', 't']);
    assert("eq"@[0] != "ne"@[0] && "eq"@[0] != "lt"@[0] && "eq"@[0] != "gt"@[0] && "ne"@[0]
        != "lt"@[0] && "ne"@[0] != "gt"@[0] && "lt"@[0] != "gt"@[0]);
    text::law_joined("eq"@, ':', value);
    text::law_joined("ne"@, ':', value);
    text::law_joined("lt"@, ':', value);
    text::law_joined("gt"@, ':', value);
}

/// What is asked for of an amount of lamports holds of exactly the amounts that compare with it in the way
/// that is written before it.
pub proof fn law_lamports_asked_for(n: u64, x: u64)
    ensures
        lamports_filter("eq"@.push(':') + text::decimal(n as nat)) matches Ok(
            AccountsFilterView::Lamports(f),
        ) && (f.holds_of(x) <==> x == n),
        lamports_filter("ne"@.push(':') + text::decimal(n as nat)) matches Ok(
            AccountsFilterView::Lamports(f),
        ) && (f.holds_of(x) <==> x != n),
        lamports_filter("lt"@.push(':') + text::decimal(n as nat)) matches Ok(
            AccountsFilterView::Lamports(f),
        ) && (f.holds_of(x) <==> x < n),
        lamports_filter("gt"@.push(':') + text::decimal(n as nat)) matches Ok(
            AccountsFilterView::Lamports(f),
        ) && (f.holds_of(x) <==> x > n),
{
    text::law_decimal(n as nat);
    law_lamports_filter(text::decimal(n as nat), n);
}

/// Only a way to compare and an amount with a colon between them is a filter of lamports. Else it is said
/// what is missing: the colon, the amount, or the way.
pub proof fn law_lamports_refused(text: Seq<char>)
    ensures
        lamports_filter(text) is Ok ==> exists|way: Seq<char>, value: Seq<char>|
            {
                &&& text == #[trigger] (way.push(':') + value)
                &&& way == "eq"@ || way == "ne"@ || way == "lt"@ || way == "gt"@
                &&& text::number_u64(value) is Some
            },
        !text.contains(':') <==> lamports_filter(text) == Err::<AccountsFilterView, RequestFailure>(
            RequestFailure::InvalidLamports,
        ),
        lamports_filter(text) matches Err(RequestFailure::InvalidLamportsValue(value))
            ==> text::number_u64(value) is None && exists|way: Seq<char>|
            !way.contains(':') && text == #[trigger] way.push(':') + value,
        lamports_filter(text) matches Err(RequestFailure::InvalidLamportsFilter(way)) ==> way
            != "eq"@ && way != "ne"@ && way != "lt"@ && way != "gt"@ && exists|value: Seq<char>|
            text::number_u64(value) is Some && text == #[trigger] (way.push(':') + value),
{
    text::law_halves(text, ':');
    if let Some((way, value)) = text::halves(text, ':') {
        assert(text == way.push(':') + value);
        assert((way.push(':') + value)[way.len() as int] == ':');
        assert(text.contains(':'));
        if let Err(RequestFailure::InvalidLamportsFilter(w)) = lamports_filter(text) {
            assert(w == way);
            assert(text::number_u64(value) is Some && text == w.push(':') + value);
        }
    }
}

/// An offset and data with a comma between them ask for accounts with the data at the offset. White space
/// around the data does not count.
pub proof fn law_bytes_filter(offset: u64, data: Seq<char>)
    ensures
        bytes_filter(text::decimal(offset as nat).push(',') + data) == Ok::<
            AccountsFilterView,
            RequestFailure,
        >(AccountsFilterView::Bytes { offset, data: text::trimmed(data) }),
        data.len() > 0 && !text::is_space(data[0]) && !text::is_space(data.last()) ==> bytes_filter(
            text::decimal(offset as nat).push(',') + data,
        ) == Ok::<AccountsFilterView, RequestFailure>(AccountsFilterView::Bytes { offset, data }),
{
    let number = text::decimal(offset as nat);
    text::law_decimal(offset as nat);
    assert(!number.contains(',')) by {
        if number.contains(',') {
            let i = choose|i: int| 0 <= i < number.len() && number[i] == ',';
            assert('0' <= number[i] <= '9');
        }
    }
    text::law_joined(number, ',', data);
}

/// Bytes to compare with are refused where there is no comma, and where what comes before it is no number.
pub proof fn law_bytes_refused(text: Seq<char>)
    ensures
        !text.contains(',') <==> bytes_filter(text) == Err::<AccountsFilterView, RequestFailure>(
            RequestFailure::InvalidBytes,
        ),
        bytes_filter(text) is Ok ==> exists|offset: Seq<char>, data: Seq<char>|
            {
                &&& text == #[trigger] (offset.push(',') + data)
                &&& text::number_u64(offset) == Some(bytes_filter(text)->Ok_0->Bytes_offset)
                &&& bytes_filter(text)->Ok_0 is Bytes
            },
{
    text::law_halves(text, ',');
    if let Some((before, after)) = text::halves(text, ',') {
        assert(text == before.push(',') + after);
        assert((before.push(',') + after)[before.len() as int] == ',');
        assert(text.contains(','));
    }
}

/// Two numbers with a comma between them are an offset and a length, in this order. Nothing else is a part
/// of the data.
pub proof fn law_data_slice(offset: u64, length: u64, text: Seq<char>)
    ensures
        data_slice(text::decimal(offset as nat).push(',') + text::decimal(length as nat)) == Ok::<
            SubscribeRequestAccountsDataSlice,
            RequestFailure,
        >(SubscribeRequestAccountsDataSlice { offset, length }),
        data_slice(text) matches Ok(slice) ==> exists|a: Seq<char>, b: Seq<char>|
            {
                &&& text == #[trigger] (a.push(',') + b)
                &&& text::number_u64(a) == Some(slice.offset)
                &&& text::number_u64(b) == Some(slice.length)
            },
        data_slice(text) is Err ==> data_slice(text)->Err_0 is InvalidDataSlice,
{
    let number = text::decimal(offset as nat);
    text::law_decimal(offset as nat);
    text::law_decimal(length as nat);
    assert(!number.contains(',')) by {
        if number.contains(',') {
            let i = choose|i: int| 0 <= i < number.len() && number[i] == ',';
            assert('0' <= number[i] <= '9');
        }
    }
    text::law_joined(number, ',', text::decimal(length as nat));
    text::law_halves(text, ',');
}

/// The results are there exactly where none of them failed, each at its place. Else the first that failed
/// says why.
pub proof fn law_collected<T>(results: Seq<Result<T, RequestFailure>>)
    ensures
        match collected(results) {
            Ok(items) => {
                &&& items.len() == results.len()
                &&& forall|i: int|
                    0 <= i < items.len() ==> #[trigger] results[i] == Ok::<T, RequestFailure>(
                        items[i],
                    )
            },
            Err(e) => exists|i: int|
                {
                    &&& 0 <= i < results.len()
                    &&& #[trigger] results[i] == Err::<T, RequestFailure>(e)
                    &&& forall|j: int| 0 <= j < i ==> (#[trigger] results[j]) is Ok
                },
        },
    decreases results.len(),
{
    if results.len() > 0 {
        let before = results.drop_last();
        let n = results.len() - 1;
        law_collected(before);
        match collected(before) {
            Ok(items) => {
                match results.last() {
                    Ok(item) => {
                        assert forall|i: int| 0 <= i < items.push(item).len() implies #[trigger] results[i]
                            == Ok::<T, RequestFailure>(items.push(item)[i]) by {
                            if i < n {
                                assert(before[i] == results[i]);
                            }
                        }
                    },
                    Err(e) => {
                        assert(results[n] == Err::<T, RequestFailure>(e));
                        assert forall|j: int| 0 <= j < n implies (#[trigger] results[j]) is Ok by {
                            assert(before[j] == results[j]);
                        }
                    },
                }
            },
            Err(e) => {
                let i = choose|i: int|
                    {
                        &&& 0 <= i < before.len()
                        &&& #[trigger] before[i] == Err::<T, RequestFailure>(e)
                        &&& forall|j: int| 0 <= j < i ==> (#[trigger] before[j]) is Ok
                    };
                assert(results[i] == before[i]);
                assert forall|j: int| 0 <= j < i implies (#[trigger] results[j]) is Ok by {
                    assert(before[j] == results[j]);
                }
            },
        }
    }
}

/// Each thing that the command line says of accounts asks for one more thing of them: bytes, the size, the
/// state of a token account and lamports. Nothing else is asked for.
pub proof fn law_account_filters(action: ActionSubscribe)
    ensures
        action.account_filters() matches Ok(filters) ==> {
            let bytes = action.accounts_bytes@.len() as int;
            let size = bytes + if action.accounts_datasize is Some {
                1int
            } else {
                0int
            };
            let state = size + if action.accounts_token_account_state {
                1int
            } else {
                0int
            };
            &&& filters.len() == state + action.accounts_lamports@.len()
            &&& forall|i: int|
                0 <= i < bytes ==> bytes_filter(action.accounts_bytes@[i]@) == Ok::<
                    AccountsFilterView,
                    RequestFailure,
                >(#[trigger] filters[i])
            &&& action.accounts_datasize matches Some(v) ==> filters[bytes]
                == AccountsFilterView::Datasize(v)
            &&& action.accounts_token_account_state ==> filters[size]
                == AccountsFilterView::TokenAccountState(true)
            &&& forall|i: int|
                0 <= i < action.accounts_lamports@.len() ==> lamports_filter(
                    #[trigger] action.accounts_lamports@[i]@,
                ) == Ok::<AccountsFilterView, RequestFailure>(filters[state + i])
        },
        action.account_filters() is Ok <==> {
            &&& forall|i: int|
                0 <= i < action.accounts_bytes@.len() ==> bytes_filter(
                    #[trigger] action.accounts_bytes@[i]@,
                ) is Ok
            &&& forall|i: int|
                0 <= i < action.accounts_lamports@.len() ==> lamports_filter(
                    #[trigger] action.accounts_lamports@[i]@,
                ) is Ok
        },
{
    let bytes = geyser::text_each(action.accounts_bytes@).map_values(
        |t: Seq<char>| bytes_filter(t),
    );
    let lamports = geyser::text_each(action.accounts_lamports@).map_values(
        |t: Seq<char>| lamports_filter(t),
    );
    law_collected(bytes);
    law_collected(lamports);
    assert forall|i: int| 0 <= i < bytes.len() implies bytes[i] == bytes_filter(
        #[trigger] action.accounts_bytes@[i]@,
    ) by {}
    assert forall|i: int| 0 <= i < lamports.len() implies lamports[i] == lamports_filter(
        #[trigger] action.accounts_lamports@[i]@,
    ) by {}
    if collected(bytes) is Err {
        let i = choose|i: int| 0 <= i < bytes.len() && #[trigger] bytes[i] is Err;
        assert(bytes_filter(action.accounts_bytes@[i]@) is Err);
    } else if collected(lamports) is Err {
        let i = choose|i: int| 0 <= i < lamports.len() && #[trigger] lamports[i] is Err;
        assert(lamports_filter(action.accounts_lamports@[i]@) is Err);
    } else {
        assert forall|i: int| 0 <= i < bytes.len() implies bytes_filter(
            #[trigger] action.accounts_bytes@[i]@,
        ) is Ok by {
            assert(bytes[i] is Ok);
        }
        assert forall|i: int| 0 <= i < lamports.len() implies lamports_filter(
            #[trigger] action.accounts_lamports@[i]@,
        ) is Ok by {
            assert(lamports[i] is Ok);
        }
        let filters = action.account_filters()->Ok_0;
        assert forall|i: int| 0 <= i < bytes.len() implies bytes_filter(
            action.accounts_bytes@[i]@,
        ) == Ok::<AccountsFilterView, RequestFailure>(#[trigger] filters[i]) by {
            assert(bytes[i] == Ok::<AccountsFilterView, RequestFailure>(collected(bytes)->Ok_0[i]));
        }
        let skip = filters.len() - lamports.len();
        assert forall|i: int| 0 <= i < lamports.len() implies lamports_filter(
            #[trigger] action.accounts_lamports@[i]@,
        ) == Ok::<AccountsFilterView, RequestFailure>(filters[skip + i]) by {
            assert(lamports[i] == Ok::<AccountsFilterView, RequestFailure>(
                collected(lamports)->Ok_0[i],
            ));
        }
    }
}

/// Each text of a part of the data asks for that part, in order.
pub proof fn law_data_slices(action: ActionSubscribe)
    ensures
        action.data_slices() matches Ok(slices) ==> {
            &&& slices.len() == action.accounts_data_slice@.len()
            &&& forall|i: int|
                0 <= i < slices.len() ==> data_slice(action.accounts_data_slice@[i]@) == Ok::<
                    SubscribeRequestAccountsDataSlice,
                    RequestFailure,
                >(#[trigger] slices[i])
        },
        action.data_slices() is Ok <==> forall|i: int|
            0 <= i < action.accounts_data_slice@.len() ==> data_slice(
                #[trigger] action.accounts_data_slice@[i]@,
            ) is Ok,
{
    let results = geyser::text_each(action.accounts_data_slice@).map_values(
        |t: Seq<char>| data_slice(t),
    );
    law_collected(results);
    assert forall|i: int| 0 <= i < results.len() implies results[i] == data_slice(
        #[trigger] action.accounts_data_slice@[i]@,
    ) by {}
    match action.data_slices() {
        Ok(slices) => {
            assert forall|i: int| 0 <= i < slices.len() implies data_slice(
                action.accounts_data_slice@[i]@,
            ) == Ok::<SubscribeRequestAccountsDataSlice, RequestFailure>(
                #[trigger] slices[i],
            ) by {
                assert(results[i] == Ok::<SubscribeRequestAccountsDataSlice, RequestFailure>(
                    slices[i],
                ));
            }
            assert forall|i: int| 0 <= i < results.len() implies data_slice(
                #[trigger] action.accounts_data_slice@[i]@,
            ) is Ok by {
                assert(results[i] is Ok);
            }
        },
        Err(_) => {
            let i = choose|i: int| 0 <= i < results.len() && #[trigger] results[i] is Err;
            assert(data_slice(action.accounts_data_slice@[i]@) is Err);
        },
    }
}

/// There is a request exactly where all parts of the data can be read, and, where accounts are subscribed
/// to, all that is asked of them.
pub proof fn law_request_failure(action: ActionSubscribe)
    ensures
        action.failure() is None <==> action.data_slices() is Ok && (action.accounts
            ==> action.account_filters() is Ok),
        action.failure() matches Some(e) ==> if action.accounts && action.account_filters() is Err {
            action.account_filters() == Err::<Seq<AccountsFilterView>, RequestFailure>(e)
        } else {
            action.data_slices() == Err::<Seq<SubscribeRequestAccountsDataSlice>, RequestFailure>(e)
        },
{
}

/// A level is written as the number of the slot status that stands for it, and a higher one as a higher
/// number.
pub proof fn law_level_number(a: CommitmentLevel, b: CommitmentLevel, status: geyser::SlotStatus)
    ensures
        level_number(a) == level_number(b) ==> a == b,
        filter::commitment_status(status) == Some(a) ==> level_number(a)
            == geyser::slot_status_number(status),
        level_number(commitment_level(ArgsCommitment::Processed)) < level_number(
            commitment_level(ArgsCommitment::Confirmed),
        ) < level_number(commitment_level(ArgsCommitment::Finalized)),
{
}

/// A request holds a filter of the name `client` for just those kinds of updates that are switched on, each
/// with what was asked for it and none of the others; and the level, the ping and the slot to start from
/// as they were given.
pub proof fn law_requested(
    a: ActionSubscribe,
    commitment: Option<CommitmentLevel>,
    listed: Seq<String>,
    request: SubscribeRequest,
)
    requires
        a.requests(commitment, listed, request),
    ensures
        request.slots@.len() == if a.slots {
            1int
        } else {
            0
        },
        request.accounts@.len() == if a.accounts {
            1int
        } else {
            0
        },
        request.transactions@.len() == if a.transactions {
            1int
        } else {
            0
        },
        request.transactions_status@.len() == if a.transactions_status {
            1int
        } else {
            0
        },
        request.entry@.len() == if a.entries {
            1int
        } else {
            0
        },
        request.blocks@.len() == if a.blocks {
            1int
        } else {
            0
        },
        request.blocks_meta@.len() == if a.blocks_meta {
            1int
        } else {
            0
        },
        a.slots ==> {
            &&& request.slots@[0].0@ == "client"@
            &&& request.slots@[0].1.filter_by_commitment == a.slots_filter_by_commitment
            &&& request.slots@[0].1.interslot_updates == a.slots_interslot_updates
        },
        a.accounts ==> {
            let f = request.accounts@[0].1;
            &&& request.accounts@[0].0@ == "client"@
            &&& f.account@.len() == a.accounts_account@.len() + listed.len()
            &&& forall|i: int|
                0 <= i < a.accounts_account@.len() ==> #[trigger] f.account@[i]
                    == a.accounts_account@[i]
            &&& forall|i: int|
                a.accounts_account@.len() <= i < f.account@.len() ==> #[trigger] f.account@[i]
                    == listed[i - a.accounts_account@.len()]
            &&& f.owner == a.accounts_owner
            &&& f.nonempty_txn_signature == a.accounts_nonempty_txn_signature
        },
        a.transactions ==> request.transactions@[0].0@ == "client"@ && request.transactions@[0].1
            == a.transactions_filter,
        a.transactions_status ==> request.transactions_status@[0].0@ == "client"@
            && request.transactions_status@[0].1 == a.transactions_status_filter,
        a.entries ==> request.entry@[0]@ == "client"@,
        a.blocks ==> request.blocks@[0].0@ == "client"@ && request.blocks@[0].1 == a.blocks_filter,
        a.blocks_meta ==> request.blocks_meta@[0]@ == "client"@,
        request.accounts_data_slice@.len() == a.accounts_data_slice@.len(),
        commitment is None ==> request.commitment is None,
        commitment == Some(CommitmentLevel::Processed) ==> request.commitment == Some(0i32),
        commitment == Some(CommitmentLevel::Confirmed) ==> request.commitment == Some(1i32),
        commitment == Some(CommitmentLevel::Finalized) ==> request.commitment == Some(2i32),
        request.ping == a.ping,
        request.from_slot == a.from_slot,
{
    law_collected(
        geyser::text_each(a.accounts_data_slice@).map_values(|t: Seq<char>| data_slice(t)),
    );
}

/// The levels of the command line are those of the stream, and processed is asked for where nothing is
/// said.
pub proof fn law_commitment_level()
    ensures
        commitment_level(ArgsCommitment::Processed) == CommitmentLevel::Processed,
        commitment_level(ArgsCommitment::Confirmed) == CommitmentLevel::Confirmed,
        commitment_level(ArgsCommitment::Finalized) == CommitmentLevel::Finalized,
        asked_level(None) == CommitmentLevel::Processed,
        asked_level(Some(ArgsCommitment::Processed)) == CommitmentLevel::Processed,
        asked_level(Some(ArgsCommitment::Confirmed)) == CommitmentLevel::Confirmed,
        asked_level(Some(ArgsCommitment::Finalized)) == CommitmentLevel::Finalized,
{
}

/// The public keys are the base 58 texts of 32 bytes, and no others. The text that a list of accounts is
/// refused for is the first that is none.
pub proof fn law_keys(bytes: Seq<u8>, texts: Seq<String>, i: int, j: int)
    ensures
        bytes.len() == 32 ==> is_key(text::base58(bytes)),
        is_key(text::base58(bytes)) ==> exists|key: Seq<u8>|
            key.len() == 32 && #[trigger] text::base58(key) == text::base58(bytes),
        first_no_key(texts, i) ==> 0 <= i < texts.len() && !(bytes.len() == 32 && texts[i]@
            == text::base58(bytes)),
        first_no_key(texts, i) && 0 <= j < i ==> exists|key: Seq<u8>|
            key.len() == 32 && #[trigger] text::base58(key) == texts[j]@,
        first_no_key(texts, i) && first_no_key(texts, j) ==> i == j,
{
    if first_no_key(texts, i) && first_no_key(texts, j) {
        if i < j {
            assert(is_key(texts[i]@));
        } else if j < i {
            assert(is_key(texts[j]@));
        }
    }
}

} // verus!
