//! The trace records: what a batch file holds.
use vstd::prelude::*;

verus! {

/// One log line, stamped with the ordinal at which it was emitted.
#[derive(Debug)]
pub struct Log {
    pub message: String,
    pub ordinal: u64,
}

/// Pre- and post-image of an account's data, seen by one instruction.
#[derive(Debug)]
pub struct AccountChange {
    pub pubkey: Vec<u8>,
    pub prev_data: Vec<u8>,
    pub new_data: Vec<u8>,
    pub new_data_length: u64,
}

/// Balance of an account before and after one instruction.
#[derive(Debug)]
pub struct BalanceChange {
    pub pubkey: Vec<u8>,
    pub prev_lamports: u64,
    pub new_lamports: u64,
}

/// Free-text summary of an engine error.
#[derive(Debug)]
pub struct ErrorSummary {
    pub error: String,
}

/// The record of one instruction invocation.
#[derive(Debug)]
pub struct Instruction {
    pub program_id: Vec<u8>,
    pub account_keys: Vec<Vec<u8>>,
    pub data: Vec<u8>,
    /// 1-based position in the transaction's instruction list.
    pub index: u64,
    /// Index of the enclosing instruction; 0 for a root instruction.
    pub parent_index: u64,
    /// Nesting level; 0 for a root instruction.
    pub depth: u64,
    pub balance_changes: Vec<BalanceChange>,
    pub account_changes: Vec<AccountChange>,
    pub logs: Vec<Log>,
    pub begin_ordinal: u64,
    /// 0 while the instruction is still open.
    pub end_ordinal: u64,
    pub failed: bool,
    pub error: Option<ErrorSummary>,
}

/// Signer counts of a transaction message.
#[derive(Debug)]
pub struct MessageHeader {
    pub num_required_signatures: u32,
    pub num_readonly_signed_accounts: u32,
    pub num_readonly_unsigned_accounts: u32,
}

/// The record of one transaction.
#[derive(Debug)]
pub struct Transaction {
    pub id: Vec<u8>,
    pub additional_signatures: Vec<Vec<u8>>,
    pub header: Option<MessageHeader>,
    pub account_keys: Vec<Vec<u8>>,
    pub recent_blockhash: Vec<u8>,
    pub instructions: Vec<Instruction>,
    pub logs: Vec<Log>,
    pub failed: bool,
    pub error: Option<ErrorSummary>,
    pub begin_ordinal: u64,
    pub end_ordinal: u64,
}

/// The unit of persistence: the transactions of one batch, in order.
#[derive(Debug)]
pub struct Batch {
    pub transactions: Vec<Transaction>,
}

} // verus!
