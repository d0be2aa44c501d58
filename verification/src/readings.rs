//! What parts of updates were read as by others: by the types of the validator, by the codec of block
//! footers, and by the parser of socket addresses.
use vstd::prelude::*;

use crate::block::{Reward, RewardView};
use crate::copy;
use crate::encode;
use crate::filter;
use crate::geyser::{SubscribeUpdateTransactionInfo, TransactionInfoView};
use crate::plugin::BlockFooterView;

verus! {

/// A transaction of the validator's own type with what is known of how it went, both encoded.
#[derive(Debug, PartialEq, Eq)]
pub struct VersionedTransactionWithStatusMeta {
    pub transaction: Vec<u8>,
    pub meta: Vec<u8>,
}

/// What a transaction with how it went holds.
pub ghost struct VersionedView {
    pub transaction: Seq<u8>,
    pub meta: Seq<u8>,
}

impl View for VersionedTransactionWithStatusMeta {
    type V = VersionedView;

    open spec fn view(&self) -> VersionedView {
        VersionedView { transaction: self.transaction@, meta: self.meta@ }
    }
}

impl Clone for VersionedTransactionWithStatusMeta {
    fn clone(&self) -> (r: Self)
        ensures
            r@ == self@,
    {
        VersionedTransactionWithStatusMeta {
            transaction: copy::copy_bytes(&self.transaction),
            meta: copy::copy_bytes(&self.meta),
        }
    }
}

/// A transaction of the validator's own type, encoded.
#[derive(Debug, PartialEq, Eq)]
pub enum TransactionWithStatusMeta {
    Complete(VersionedTransactionWithStatusMeta),
    /// The transaction alone.
    MissingMetadata(Vec<u8>),
}

/// What a transaction of the validator's own type holds.
pub ghost enum TransactionView {
    Complete(VersionedView),
    MissingMetadata(Seq<u8>),
}

impl View for TransactionWithStatusMeta {
    type V = TransactionView;

    open spec fn view(&self) -> TransactionView {
        match self {
            TransactionWithStatusMeta::Complete(t) => TransactionView::Complete(t@),
            TransactionWithStatusMeta::MissingMetadata(t) => TransactionView::MissingMetadata(t@),
        }
    }
}

impl Clone for TransactionWithStatusMeta {
    fn clone(&self) -> (r: Self)
        ensures
            r@ == self@,
    {
        match self {
            TransactionWithStatusMeta::Complete(t) => TransactionWithStatusMeta::Complete(t.clone()),
            TransactionWithStatusMeta::MissingMetadata(t) => {
                TransactionWithStatusMeta::MissingMetadata(copy::copy_bytes(t))
            },
        }
    }
}

impl Clone for Reward {
    fn clone(&self) -> (r: Self)
        ensures
            r@ == self@,
    {
        Reward {
            pubkey: copy::copy_text(&self.pubkey),
            lamports: self.lamports,
            post_balance: self.post_balance,
            reward_type: self.reward_type,
            commission: copy::copy_text(&self.commission),
        }
    }
}

/// What parts of updates were read as. Each list pairs a part with what came of it. Of two pairs for one
/// part the later one counts. Nothing came of a part that is not listed.
#[derive(Debug)]
pub struct Readings {
    /// Transactions with all that is known of them, encoded: what the types of the validator make of
    /// them, or why they make nothing of them.
    pub transactions: Vec<(Vec<u8>, Result<TransactionWithStatusMeta, &'static str>)>,
    /// Transactions alone, encoded: what the types of the validator make of them, encoded again.
    pub bodies: Vec<(Vec<u8>, Vec<u8>)>,
    /// Why transactions failed, serialized: what the types of the validator make of it, serialized again.
    pub errors: Vec<(Vec<u8>, Vec<u8>)>,
    /// The rewards of blocks, encoded: what the types of the validator make of them, encoded again.
    pub reward_lists: Vec<(Vec<u8>, Vec<u8>)>,
    /// Single rewards: what the types of the validator make of them, or why they make nothing of them.
    pub rewards: Vec<(Reward, Result<Reward, &'static str>)>,
    /// Block footers, serialized: what they say.
    pub footers: Vec<(Vec<u8>, BlockFooterView)>,
    /// The texts of sockets: the addresses that they are, as addresses are written.
    pub sockets: Vec<(String, String)>,
}

/// The place of the last of the keys that is `key`.
pub open spec fn place<K>(keys: Seq<K>, key: K) -> Option<int>
    decreases keys.len(),
{
    if keys.len() == 0 {
        None
    } else if keys.last() == key {
        Some(keys.len() - 1)
    } else {
        place(keys.drop_last(), key)
    }
}

/// The first of each pair.
pub open spec fn keys_of<T>(pairs: Seq<(Vec<u8>, T)>) -> Seq<Seq<u8>> {
    pairs.map_values(|pair: (Vec<u8>, T)| pair.0@)
}

/// The place of the last pair for the bytes.
fn find<T>(pairs: &Vec<(Vec<u8>, T)>, key: &[u8]) -> (r: Option<usize>)
    ensures
        match place(keys_of(pairs@), key@) {
            Some(i) => r is Some && r->Some_0 == i && 0 <= i < pairs@.len(),
            None => r is None,
        },
{
    let ghost keys = keys_of(pairs@);
    let mut n: usize = pairs.len();
    assert(keys.take(n as int) =~= keys);
    while n > 0
        invariant
            n <= pairs@.len(),
            keys == keys_of(pairs@),
            place(keys, key@) == place(keys.take(n as int), key@),
        decreases n,
    {
        n = n - 1;
        proof {
            assert(keys.take(n + 1).last() == pairs@[n as int].0@);
            assert(keys.take(n + 1).drop_last() =~= keys.take(n as int));
        }
        if filter::same_bytes(pairs[n].0.as_slice(), key) {
            return Some(n);
        }
    }
    None
}

/// The bytes in the last pair for the bytes.
pub open spec fn read_as(pairs: Seq<(Vec<u8>, Vec<u8>)>, key: Seq<u8>) -> Option<Seq<u8>> {
    match place(keys_of(pairs), key) {
        Some(i) => Some(pairs[i].1@),
        None => None,
    }
}

/// The bytes in the last pair for the bytes.
fn find_bytes(pairs: &Vec<(Vec<u8>, Vec<u8>)>, key: &[u8]) -> (r: Option<Vec<u8>>)
    ensures
        match read_as(pairs@, key@) {
            Some(bytes) => r is Some && r->Some_0@ == bytes,
            None => r is None,
        },
{
    match find(pairs, key) {
        Some(i) => Some(copy::copy_bytes(&pairs[i].1)),
        None => None,
    }
}

impl Readings {
    /// Readings of nothing.
    pub fn new() -> (r: Readings)
        ensures
            r.transactions@.len() == 0,
            r.bodies@.len() == 0,
            r.errors@.len() == 0,
            r.reward_lists@.len() == 0,
            r.rewards@.len() == 0,
            r.footers@.len() == 0,
            r.sockets@.len() == 0,
    {
        Readings {
            transactions: Vec::new(),
            bodies: Vec::new(),
            errors: Vec::new(),
            reward_lists: Vec::new(),
            rewards: Vec::new(),
            footers: Vec::new(),
            sockets: Vec::new(),
        }
    }

    /// What the types of the validator make of the transaction, or why they make nothing of it.
    pub open spec fn transaction(&self, info: TransactionInfoView) -> Result<
        TransactionView,
        &'static str,
    > {
        match place(keys_of(self.transactions@), encode::transaction_info_bytes(info)) {
            Some(i) => match self.transactions@[i].1 {
                Ok(t) => Ok(t@),
                Err(e) => Err(e),
            },
            None => Err("NotConverted"),
        }
    }

    /// What the types of the validator make of the transaction, or why they make nothing of it.
    pub fn read_transaction(&self, info: &SubscribeUpdateTransactionInfo) -> (r: Result<
        TransactionWithStatusMeta,
        &'static str,
    >)
        ensures
            match self.transaction(info@) {
                Ok(t) => r is Ok && r->Ok_0@ == t,
                Err(e) => r is Err && r->Err_0 == e,
            },
    {
        let key: Vec<u8> = transaction_key(info);
        match find(&self.transactions, key.as_slice()) {
            Some(i) => match &self.transactions[i].1 {
                Ok(t) => Ok(t.clone()),
                Err(e) => Err(*e),
            },
            None => Err("NotConverted"),
        }
    }

    /// What the types of the validator make of the transaction alone.
    pub open spec fn body(&self, bytes: Seq<u8>) -> Option<Seq<u8>> {
        read_as(self.bodies@, bytes)
    }

    /// What the types of the validator make of the transaction alone.
    pub fn read_body(&self, bytes: &[u8]) -> (r: Option<Vec<u8>>)
        ensures
            match self.body(bytes@) {
                Some(b) => r is Some && r->Some_0@ == b,
                None => r is None,
            },
    {
        find_bytes(&self.bodies, bytes)
    }

    /// What the types of the validator make of why a transaction failed.
    pub open spec fn error(&self, bytes: Seq<u8>) -> Option<Seq<u8>> {
        read_as(self.errors@, bytes)
    }

    /// What the types of the validator make of why a transaction failed.
    pub fn read_error(&self, bytes: &[u8]) -> (r: Option<Vec<u8>>)
        ensures
            match self.error(bytes@) {
                Some(b) => r is Some && r->Some_0@ == b,
                None => r is None,
            },
    {
        find_bytes(&self.errors, bytes)
    }

    /// What the types of the validator make of the rewards of a block.
    pub open spec fn reward_list(&self, bytes: Seq<u8>) -> Option<Seq<u8>> {
        read_as(self.reward_lists@, bytes)
    }

    /// What the types of the validator make of the rewards of a block.
    pub fn read_reward_list(&self, bytes: &[u8]) -> (r: Option<Vec<u8>>)
        ensures
            match self.reward_list(bytes@) {
                Some(b) => r is Some && r->Some_0@ == b,
                None => r is None,
            },
    {
        find_bytes(&self.reward_lists, bytes)
    }

    /// What the types of the validator make of the reward, or why they make nothing of it.
    pub open spec fn reward(&self, m: RewardView) -> Result<RewardView, &'static str> {
        match place(reward_keys(self.rewards@), m) {
            Some(i) => match self.rewards@[i].1 {
                Ok(reward) => Ok(reward@),
                Err(e) => Err(e),
            },
            None => Err("NotConverted"),
        }
    }

    /// What the types of the validator make of the reward, or why they make nothing of it.
    pub fn read_reward(&self, m: &Reward) -> (r: Result<Reward, &'static str>)
        ensures
            match self.reward(m@) {
                Ok(reward) => r is Ok && r->Ok_0@ == reward,
                Err(e) => r is Err && r->Err_0 == e,
            },
    {
        let ghost keys = reward_keys(self.rewards@);
        let mut n: usize = self.rewards.len();
        assert(keys.take(n as int) =~= keys);
        while n > 0
            invariant
                n <= self.rewards@.len(),
                keys == reward_keys(self.rewards@),
                place(keys, m@) == place(keys.take(n as int), m@),
            decreases n,
        {
            n = n - 1;
            proof {
                assert(keys.take(n + 1).last() == self.rewards@[n as int].0@);
                assert(keys.take(n + 1).drop_last() =~= keys.take(n as int));
            }
            if same_reward(&self.rewards[n].0, m) {
                return match &self.rewards[n].1 {
                    Ok(reward) => Ok(reward.clone()),
                    Err(e) => Err(*e),
                };
            }
        }
        Err("NotConverted")
    }

    /// What the serialized block footer says, where it can be read.
    pub open spec fn footer(&self, bytes: Seq<u8>) -> Option<BlockFooterView> {
        match place(keys_of(self.footers@), bytes) {
            Some(i) => Some(self.footers@[i].1),
            None => None,
        }
    }

    /// What the serialized block footer says, where it can be read.
    pub fn read_footer(&self, bytes: &[u8]) -> (r: Option<&BlockFooterView>)
        ensures
            match self.footer(bytes@) {
                Some(footer) => r is Some && *r->Some_0 == footer,
                None => r is None,
            },
    {
        match find(&self.footers, bytes) {
            Some(i) => Some(&self.footers[i].1),
            None => None,
        }
    }

    /// The address that the text of a socket is, as addresses are written, where it is one.
    pub open spec fn socket(&self, text: Seq<char>) -> Option<Seq<char>> {
        match place(text_keys(self.sockets@), text) {
            Some(i) => Some(self.sockets@[i].1@),
            None => None,
        }
    }

    /// The address that the text of a socket is, as addresses are written, where it is one.
    pub fn read_socket(&self, text: &str) -> (r: Option<String>)
        ensures
            match self.socket(text@) {
                Some(address) => r is Some && r->Some_0@ == address,
                None => r is None,
            },
    {
        let ghost keys = text_keys(self.sockets@);
        let mut n: usize = self.sockets.len();
        assert(keys.take(n as int) =~= keys);
        while n > 0
            invariant
                n <= self.sockets@.len(),
                keys == text_keys(self.sockets@),
                place(keys, text@) == place(keys.take(n as int), text@),
            decreases n,
        {
            n = n - 1;
            proof {
                assert(keys.take(n + 1).last() == self.sockets@[n as int].0@);
                assert(keys.take(n + 1).drop_last() =~= keys.take(n as int));
            }
            if filter::same_text(self.sockets[n].0.as_str(), text) {
                return Some(copy::copy_text(&self.sockets[n].1));
            }
        }
        None
    }
}

/// The first of each pair.
pub open spec fn reward_keys(pairs: Seq<(Reward, Result<Reward, &'static str>)>) -> Seq<RewardView> {
    pairs.map_values(|pair: (Reward, Result<Reward, &'static str>)| pair.0@)
}

/// The first of each pair.
pub open spec fn text_keys(pairs: Seq<(String, String)>) -> Seq<Seq<char>> {
    pairs.map_values(|pair: (String, String)| pair.0@)
}

/// Whether the rewards are the same.
fn same_reward(a: &Reward, b: &Reward) -> (r: bool)
    ensures
        r == (a@ == b@),
{
    a.lamports == b.lamports && a.post_balance == b.post_balance && a.reward_type == b.reward_type
        && filter::same_text(a.pubkey.as_str(), b.pubkey.as_str()) && filter::same_text(
        a.commission.as_str(),
        b.commission.as_str(),
    )
}

/// What a transaction with all that is known of it is listed under: the whole of it, encoded.
pub fn transaction_key(info: &SubscribeUpdateTransactionInfo) -> (r: Vec<u8>)
    ensures
        r@ == encode::transaction_info_bytes(info@),
{
    let mut key: Vec<u8> = Vec::new();
    encode::transaction_info_encode(info, &mut key);
    assert(key@ =~= encode::transaction_info_bytes(info@));
    key
}

} // verus!
