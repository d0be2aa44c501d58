//! Copies of messages.
use std::ops::Range;
use std::sync::Arc;

use vstd::prelude::*;

use crate::account::MessageAccount;
use crate::collections;
use crate::geyser;
use crate::geyser::{
    SubscribeUpdateAccountInfo, SubscribeUpdateBlockMeta, SubscribeUpdateEntry,
    SubscribeUpdateTransactionInfo, Transaction, TransactionError, TransactionStatusMeta,
};
use crate::message::{
    Message, MessageBlock, MessageBlockMeta, MessageEntry, MessageSlot, MessageTransaction,
};

verus! {

/// The same bytes.
pub(crate) fn copy_bytes(bytes: &Vec<u8>) -> (r: Vec<u8>)
    ensures
        r@ == bytes@,
{
    vstd::slice::slice_to_vec(bytes.as_slice())
}

/// The same bytes, if there are any.
pub(crate) fn copy_bytes_opt(bytes: &Option<Vec<u8>>) -> (r: Option<Vec<u8>>)
    ensures
        geyser::bytes_opt(r) == geyser::bytes_opt(*bytes),
{
    match bytes {
        Some(bytes) => Some(copy_bytes(bytes)),
        None => None,
    }
}

/// The same text.
pub(crate) fn copy_text(text: &String) -> (r: String)
    ensures
        r@ == text@,
{
    text.as_str().to_owned()
}

/// The same text, if there is any.
pub(crate) fn copy_text_opt(text: &Option<String>) -> (r: Option<String>)
    ensures
        geyser::text_opt(r) == geyser::text_opt(*text),
{
    match text {
        Some(text) => Some(copy_text(text)),
        None => None,
    }
}

/// The same runs of bytes.
pub(crate) fn copy_bytes_each(items: &Vec<Vec<u8>>) -> (r: Vec<Vec<u8>>)
    ensures
        geyser::bytes_each(r@) == geyser::bytes_each(items@),
{
    let mut copies: Vec<Vec<u8>> = Vec::new();
    let mut i: usize = 0;
    while i < items.len()
        invariant
            i <= items@.len(),
            copies@.len() == i,
            forall|j: int| 0 <= j < i ==> (#[trigger] copies@[j])@ == items@[j]@,
        decreases items@.len() - i,
    {
        copies.push(copy_bytes(&items[i]));
        i = i + 1;
    }
    assert(geyser::bytes_each(copies@) =~= geyser::bytes_each(items@));
    copies
}

/// The same range.
fn copy_range(range: &Range<usize>) -> (r: Range<usize>)
    ensures
        r == *range,
{
    Range { start: range.start, end: range.end }
}

impl Clone for TransactionError {
    fn clone(&self) -> (r: Self)
        ensures
            r@ == self@,
    {
        TransactionError { err: copy_bytes(&self.err) }
    }
}

impl Clone for Transaction {
    fn clone(&self) -> (r: Self)
        ensures
            r@ == self@,
    {
        Transaction {
            account_keys: match &self.account_keys {
                Some(keys) => Some(copy_bytes_each(keys)),
                None => None,
            },
            encoded: copy_bytes(&self.encoded),
        }
    }
}

impl Clone for TransactionStatusMeta {
    fn clone(&self) -> (r: Self)
        ensures
            r@ == self@,
    {
        TransactionStatusMeta {
            err: geyser::copy_error(&self.err),
            loaded_writable_addresses: copy_bytes_each(&self.loaded_writable_addresses),
            loaded_readonly_addresses: copy_bytes_each(&self.loaded_readonly_addresses),
            encoded: copy_bytes(&self.encoded),
        }
    }
}

impl Clone for SubscribeUpdateTransactionInfo {
    fn clone(&self) -> (r: Self)
        ensures
            r@ == self@,
    {
        SubscribeUpdateTransactionInfo {
            signature: copy_bytes(&self.signature),
            is_vote: self.is_vote,
            transaction: match &self.transaction {
                Some(transaction) => Some(transaction.clone()),
                None => None,
            },
            meta: match &self.meta {
                Some(meta) => Some(meta.clone()),
                None => None,
            },
            index: self.index,
        }
    }
}

impl Clone for SubscribeUpdateAccountInfo {
    fn clone(&self) -> (r: Self)
        ensures
            r@ == self@,
    {
        SubscribeUpdateAccountInfo {
            pubkey: copy_bytes(&self.pubkey),
            lamports: self.lamports,
            owner: copy_bytes(&self.owner),
            executable: self.executable,
            rent_epoch: self.rent_epoch,
            data: copy_bytes(&self.data),
            write_version: self.write_version,
            txn_signature: copy_bytes_opt(&self.txn_signature),
        }
    }
}

impl Clone for SubscribeUpdateEntry {
    fn clone(&self) -> (r: Self)
        ensures
            r@ == self@,
    {
        SubscribeUpdateEntry {
            slot: self.slot,
            index: self.index,
            num_hashes: self.num_hashes,
            hash: copy_bytes(&self.hash),
            executed_transaction_count: self.executed_transaction_count,
            starting_transaction_index: self.starting_transaction_index,
        }
    }
}

impl Clone for SubscribeUpdateBlockMeta {
    fn clone(&self) -> (r: Self)
        ensures
            r@ == self@,
    {
        SubscribeUpdateBlockMeta {
            slot: self.slot,
            blockhash: copy_text(&self.blockhash),
            rewards: copy_bytes_opt(&self.rewards),
            block_time: self.block_time,
            block_height: self.block_height,
            parent_slot: self.parent_slot,
            parent_blockhash: copy_text(&self.parent_blockhash),
            executed_transaction_count: self.executed_transaction_count,
            entries_count: self.entries_count,
        }
    }
}

impl Clone for MessageSlot {
    fn clone(&self) -> (r: Self)
        ensures
            r@ == self@,
    {
        match self {
            MessageSlot::Limited { slot, parent, status, dead_error, created_at, buffer, range } => {
                MessageSlot::Limited {
                    slot: *slot,
                    parent: *parent,
                    status: *status,
                    dead_error: match dead_error {
                        Some(range) => Some(copy_range(range)),
                        None => None,
                    },
                    created_at: *created_at,
                    buffer: copy_bytes(buffer),
                    range: copy_range(range),
                }
            },
            MessageSlot::Prost { slot, parent, status, dead_error, created_at, size } => {
                MessageSlot::Prost {
                    slot: *slot,
                    parent: *parent,
                    status: *status,
                    dead_error: copy_text_opt(dead_error),
                    created_at: *created_at,
                    size: *size,
                }
            },
        }
    }
}

impl Clone for MessageAccount {
    fn clone(&self) -> (r: Self)
        ensures
            r@ == self@,
    {
        match self {
            MessageAccount::Limited {
                pubkey,
                owner,
                lamports,
                executable,
                rent_epoch,
                data,
                txn_signature_offset,
                write_version,
                slot,
                is_startup,
                created_at,
                buffer,
                account_offset,
                range,
            } => MessageAccount::Limited {
                pubkey: *pubkey,
                owner: *owner,
                lamports: *lamports,
                executable: *executable,
                rent_epoch: *rent_epoch,
                data: copy_range(data),
                txn_signature_offset: *txn_signature_offset,
                write_version: *write_version,
                slot: *slot,
                is_startup: *is_startup,
                created_at: *created_at,
                buffer: copy_bytes(buffer),
                account_offset: *account_offset,
                range: copy_range(range),
            },
            MessageAccount::Prost {
                pubkey,
                owner,
                account,
                slot,
                is_startup,
                created_at,
                size,
            } => MessageAccount::Prost {
                pubkey: *pubkey,
                owner: *owner,
                account: account.clone(),
                slot: *slot,
                is_startup: *is_startup,
                created_at: *created_at,
                size: *size,
            },
        }
    }
}

impl Clone for MessageTransaction {
    fn clone(&self) -> (r: Self)
        ensures
            r@ == self@,
    {
        match self {
            MessageTransaction::Limited {
                signature_offset,
                error,
                account_keys,
                is_vote,
                index,
                transaction_range,
                slot,
                created_at,
                buffer,
                range,
            } => MessageTransaction::Limited {
                signature_offset: *signature_offset,
                error: geyser::copy_error(error),
                account_keys: account_keys.clone(),
                is_vote: *is_vote,
                index: *index,
                transaction_range: copy_range(transaction_range),
                slot: *slot,
                created_at: *created_at,
                buffer: copy_bytes(buffer),
                range: copy_range(range),
            },
            MessageTransaction::Prost {
                error,
                account_keys,
                transaction,
                slot,
                created_at,
                size,
            } => MessageTransaction::Prost {
                error: geyser::copy_error(error),
                account_keys: account_keys.clone(),
                transaction: transaction.clone(),
                slot: *slot,
                created_at: *created_at,
                size: *size,
            },
        }
    }
}

impl Clone for MessageEntry {
    fn clone(&self) -> (r: Self)
        ensures
            r@ == self@,
    {
        match self {
            MessageEntry::Limited {
                slot,
                index,
                executed_transaction_count,
                created_at,
                buffer,
                range,
            } => MessageEntry::Limited {
                slot: *slot,
                index: *index,
                executed_transaction_count: *executed_transaction_count,
                created_at: *created_at,
                buffer: copy_bytes(buffer),
                range: copy_range(range),
            },
            MessageEntry::Prost { entry, created_at, size } => MessageEntry::Prost {
                entry: entry.clone(),
                created_at: *created_at,
                size: *size,
            },
        }
    }
}

impl Clone for MessageBlockMeta {
    fn clone(&self) -> (r: Self)
        ensures
            r@ == self@,
    {
        match self {
            MessageBlockMeta::Limited { block_meta, block_height, created_at, buffer, range } => {
                MessageBlockMeta::Limited {
                    block_meta: block_meta.clone(),
                    block_height: *block_height,
                    created_at: *created_at,
                    buffer: copy_bytes(buffer),
                    range: copy_range(range),
                }
            },
            MessageBlockMeta::Prost { block_meta, block_height, created_at, size } => {
                MessageBlockMeta::Prost {
                    block_meta: block_meta.clone(),
                    block_height: *block_height,
                    created_at: *created_at,
                    size: *size,
                }
            },
        }
    }
}

/// The same messages, shared.
fn share_each<T>(items: &Vec<Arc<T>>) -> (r: Vec<Arc<T>>)
    ensures
        r@ == items@,
{
    let mut copies: Vec<Arc<T>> = Vec::new();
    let mut i: usize = 0;
    while i < items.len()
        invariant
            i <= items@.len(),
            copies@ =~= items@.take(i as int),
        decreases items@.len() - i,
    {
        copies.push(collections::share(&items[i]));
        i = i + 1;
    }
    copies
}

impl Clone for MessageBlock {
    fn clone(&self) -> (r: Self)
        ensures
            r@ == self@,
    {
        MessageBlock {
            accounts: share_each(&self.accounts),
            transactions: share_each(&self.transactions),
            entries: share_each(&self.entries),
            block_meta: collections::share(&self.block_meta),
            created_at: self.created_at,
        }
    }
}

impl Clone for Message {
    fn clone(&self) -> (r: Self)
        ensures
            r@ == self@,
    {
        match self {
            Message::Slot(m) => Message::Slot(m.clone()),
            Message::Account(m) => Message::Account(m.clone()),
            Message::Transaction(m) => Message::Transaction(m.clone()),
            Message::Entry(m) => Message::Entry(m.clone()),
            Message::BlockMeta(m) => Message::BlockMeta(m.clone()),
            Message::Block(m) => Message::Block(m.clone()),
        }
    }
}

} // verus!
