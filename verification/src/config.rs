//! What a subscriber asks for, and how the plugin is set up.
use vstd::prelude::*;
use vstd::string::StringExecFns;

use crate::filter;
use crate::protobuf::ProtobufEncoder;
use crate::pubkey::{Pubkey, Signature};

verus! {

/// How many memory comparisons, and how many comparisons of lamports, one filter may hold.
pub const MAX_FILTERS: usize = 4;

/// How many bytes one memory comparison may compare.
pub const MAX_DATA_SIZE: usize = 128;

/// Filters, each list of them by name. Where they fit, no name occurs twice in a list.
#[derive(Debug)]
pub struct ConfigFilter {
    pub slots: Vec<(String, ConfigFilterSlots)>,
    pub accounts: Vec<(String, ConfigFilterAccounts)>,
    pub accounts_data_slice: Vec<ConfigFilterAccountsDataSlice>,
    pub transactions: Vec<(String, ConfigFilterTransactions)>,
    pub transactions_status: Vec<(String, ConfigFilterTransactions)>,
    pub entries: Vec<String>,
    pub blocks_meta: Vec<String>,
    pub blocks: Vec<(String, ConfigFilterBlocks)>,
    pub commitment: Option<ConfigFilterCommitment>,
}

/// Which slot updates to pass.
#[derive(Debug, Clone, Copy, PartialEq, Eq)]
pub struct ConfigFilterSlots {
    pub filter_by_commitment: Option<bool>,
    pub interslot_updates: Option<bool>,
}

/// Which account updates to pass.
#[derive(Debug)]
pub struct ConfigFilterAccounts {
    pub account: Vec<Pubkey>,
    pub owner: Vec<Pubkey>,
    pub filters: Vec<ConfigFilterAccountsFilter>,
    pub nonempty_txn_signature: Option<bool>,
}

/// What an account has to meet.
#[derive(Debug)]
pub enum ConfigFilterAccountsFilter {
    Bytes { offset: usize, data: Vec<u8> },
    DataSize(u64),
    TokenAccountState,
    Lamports(ConfigFilterAccountsFilterLamports),
}

/// What the lamports of an account have to meet.
#[derive(Debug, Clone, Copy, PartialEq, Eq, Structural)]
pub enum ConfigFilterAccountsFilterLamports {
    Eq(u64),
    Ne(u64),
    Lt(u64),
    Gt(u64),
}

/// A part of the data of an account.
#[derive(Debug, Clone, Copy, PartialEq, Eq, Structural)]
pub struct ConfigFilterAccountsDataSlice {
    pub offset: u64,
    pub length: u64,
}

/// Which transaction updates to pass.
#[derive(Debug)]
pub struct ConfigFilterTransactions {
    pub vote: Option<bool>,
    pub failed: Option<bool>,
    pub signature: Option<Signature>,
    pub account_include: Vec<Pubkey>,
    pub account_exclude: Vec<Pubkey>,
    pub account_required: Vec<Pubkey>,
}

/// Which parts of block updates to pass.
#[derive(Debug)]
pub struct ConfigFilterBlocks {
    pub account_include: Vec<Pubkey>,
    pub include_transactions: Option<bool>,
    pub include_accounts: Option<bool>,
    pub include_entries: Option<bool>,
}

/// How settled what is passed has to be.
#[derive(Debug, Clone, Copy, PartialEq, Eq, Structural)]
pub enum ConfigFilterCommitment {
    Processed,
    Confirmed,
    Finalized,
}

/// How many of `filters` are memory comparisons.
pub open spec fn bytes_count(filters: Seq<ConfigFilterAccountsFilter>) -> nat
    decreases filters.len(),
{
    if filters.len() == 0 {
        0
    } else {
        bytes_count(filters.drop_last()) + if filters.last() is Bytes {
            1nat
        } else {
            0nat
        }
    }
}

/// How many of `filters` are comparisons of lamports.
pub open spec fn lamports_count(filters: Seq<ConfigFilterAccountsFilter>) -> nat
    decreases filters.len(),
{
    if filters.len() == 0 {
        0
    } else {
        lamports_count(filters.drop_last()) + if filters.last() is Lamports {
            1nat
        } else {
            0nat
        }
    }
}

/// Whether `filters` are few and small enough.
pub open spec fn filters_fit(filters: Seq<ConfigFilterAccountsFilter>) -> bool {
    &&& bytes_count(filters) <= MAX_FILTERS
    &&& lamports_count(filters) <= MAX_FILTERS
    &&& forall|i: int|
        0 <= i < filters.len() ==> (#[trigger] filters[i] matches ConfigFilterAccountsFilter::Bytes {
            offset,
            data,
        } ==> data@.len() <= MAX_DATA_SIZE && offset + data@.len() <= usize::MAX)
}

/// Whether no two of the filters have one name.
pub open spec fn named_apart<F>(filters: Seq<(String, F)>) -> bool {
    forall|i: int, j: int|
        0 <= i < j < filters.len() ==> (#[trigger] filters[i]).0@ != (#[trigger] filters[j]).0@
}

/// Whether no two of the names are one.
pub open spec fn names_apart(names: Seq<String>) -> bool {
    forall|i: int, j: int|
        0 <= i < j < names.len() ==> (#[trigger] names[i])@ != (#[trigger] names[j])@
}

impl ConfigFilter {
    /// Whether no two filters of a list have one name, the filters are few and small enough, and the data
    /// slices end within the address space.
    pub open spec fn fits(&self) -> bool {
        &&& named_apart(self.slots@)
        &&& named_apart(self.accounts@)
        &&& named_apart(self.transactions@)
        &&& named_apart(self.transactions_status@)
        &&& names_apart(self.entries@)
        &&& names_apart(self.blocks_meta@)
        &&& named_apart(self.blocks@)
        &&& forall|i: int|
            0 <= i < self.accounts@.len() ==> filters_fit(
                (#[trigger] self.accounts@[i]).1.filters@,
            )
        &&& forall|i: int|
            0 <= i < self.accounts_data_slice@.len() ==> {
                let slice = #[trigger] self.accounts_data_slice@[i];
                slice.offset + slice.length <= usize::MAX && slice.offset + slice.length
                    <= u64::MAX
            }
    }

    /// No filters.
    pub fn none() -> (r: ConfigFilter)
        ensures
            r.fits(),
            r.slots@.len() == 0,
            r.accounts@.len() == 0,
            r.accounts_data_slice@.len() == 0,
            r.transactions@.len() == 0,
            r.transactions_status@.len() == 0,
            r.entries@.len() == 0,
            r.blocks_meta@.len() == 0,
            r.blocks@.len() == 0,
            r.commitment is None,
    {
        ConfigFilter {
            slots: Vec::new(),
            accounts: Vec::new(),
            accounts_data_slice: Vec::new(),
            transactions: Vec::new(),
            transactions_status: Vec::new(),
            entries: Vec::new(),
            blocks_meta: Vec::new(),
            blocks: Vec::new(),
            commitment: None,
        }
    }
}

// ---------------------------------------------------------------------------------------------
// The configuration of the plugin
// ---------------------------------------------------------------------------------------------

/// How to log.
#[derive(Debug, Clone)]
pub struct ConfigLogs {
    /// Log level
    pub level: String,
}

impl Default for ConfigLogs {
    fn default() -> (r: Self)
        ensures
            r.level@ == "info"@,
    {
        ConfigLogs { level: "info".to_owned() }
    }
}

/// The limits of the channel, and how its messages are encoded.
#[derive(Debug, Clone, Copy)]
pub struct ConfigChannel {
    pub encoder: ProtobufEncoder,
    pub max_messages: usize,
    pub max_bytes: usize,
}

/// Bytes in 15 GiB: with 150 MiB for a slot, room for some hundred slots.
pub const MAX_BYTES: u64 = 16_106_127_360;

impl Default for ConfigChannel {
    fn default() -> (r: Self)
        ensures
            r.encoder == ProtobufEncoder::Raw,
            r.max_messages == 2_097_152,
            r.max_bytes == MAX_BYTES as usize,
    {
        ConfigChannel {
            encoder: ProtobufEncoder::Raw,
            max_messages: 2_097_152,
            max_bytes: MAX_BYTES as usize,
        }
    }
}

/// The encoder of that name, where there is one.
pub open spec fn encoder_named(name: Seq<char>) -> Option<ProtobufEncoder> {
    if name == "prost"@ {
        Some(ProtobufEncoder::Prost)
    } else if name == "raw"@ {
        Some(ProtobufEncoder::Raw)
    } else {
        None
    }
}

/// Each encoder goes by its own name, and no other name is one of an encoder.
pub proof fn law_encoder_named(name: Seq<char>)
    ensures
        encoder_named("prost"@) == Some(ProtobufEncoder::Prost),
        encoder_named("raw"@) == Some(ProtobufEncoder::Raw),
        name != "prost"@ && name != "raw"@ ==> encoder_named(name) is None,
{
    reveal_strlit("prost");
    reveal_strlit("raw");
    assert("prost"@.len() != "raw"@.len());
}

impl ConfigChannel {
    /// The encoder of that name, or what to say where there is none.
    pub fn encoder_of(name: &str) -> (r: Result<ProtobufEncoder, String>)
        ensures
            r matches Ok(encoder) ==> encoder_named(name@) == Some(encoder),
            r is Err ==> encoder_named(name@) is None,
            match r {
                Ok(encoder) => name@ == match encoder {
                    ProtobufEncoder::Prost => "prost"@,
                    ProtobufEncoder::Raw => "raw"@,
                },
                Err(text) => {
                    &&& name@ != "prost"@
                    &&& name@ != "raw"@
                    &&& text@ == "failed to decode encoder: "@ + name@
                },
            },
    {
        if filter::same_text(name, "prost") {
            Ok(ProtobufEncoder::Prost)
        } else if filter::same_text(name, "raw") {
            Ok(ProtobufEncoder::Raw)
        } else {
            let mut text: String = "failed to decode encoder: ".to_owned();
            text.append(name);
            Err(text)
        }
    }
}

/// Which notifications to ask a validator for besides those of accounts, transactions, entries, slots
/// and block metadata. None of them by default.
#[derive(Debug, Clone, Copy, PartialEq, Eq, Structural)]
pub struct ConfigNotifications {
    /// Transactions reconstructed from shreds before replay, and changes of parents that the shreds
    /// tell of
    pub deshred_transactions: bool,
    /// Resolve address lookup tables for these transactions
    pub deshred_transactions_alt_resolution: bool,
    /// Gossip contact info updates and removals
    pub contact_info: bool,
    /// Block footers
    pub block_footers: bool,
}

impl Default for ConfigNotifications {
    fn default() -> (r: Self)
        ensures
            r == (ConfigNotifications {
                deshred_transactions: false,
                deshred_transactions_alt_resolution: false,
                contact_info: false,
                block_footers: false,
            }),
    {
        ConfigNotifications {
            deshred_transactions: false,
            deshred_transactions_alt_resolution: false,
            contact_info: false,
            block_footers: false,
        }
    }
}

} // verus!
