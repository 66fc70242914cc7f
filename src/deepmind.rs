//! Configuration, and the batch of transaction traces the engine drives.
use crate::codec::{Batch, ErrorSummary, MessageHeader, Transaction};
use crate::trace::{
    account_changed, ended, error_instruction_recorded, error_trx_recorded, instruction_failed, lamport_changed, logged, started, top_logged,
    trx_failed,
};
pub use crate::trace::DMTransaction;
use crate::wire::{batch_bytes, encode_batch};
use solana_program::instruction::InstructionError;
use solana_transaction_error::TransactionError;
use vstd::prelude::*;
use vstd::string::to_string_from_display_ensures;

verus! {

pub const DEEPMIND_VERSION: &'static str = "0.1";

pub const DEEPMIND_VARIANT_STANDARD: &'static str = "vanilla-standard";

pub const DEEPMIND_VARIANT_AUGMENTED: &'static str = "vanilla-augmented";

/// Which trace the recorder produces.
#[derive(Clone, Copy, Debug, PartialEq, Eq, Structural)]
pub enum DeepmindMode {
    /// Completed blocks, as the block store keeps them.
    Standard,
    /// The instrumented trace: spans, logs and state changes.
    Augmented,
}

/// Whether tracing is on, and in which mode; settled before a recorder is built.
#[derive(Clone, Copy, Debug, PartialEq, Eq, Structural)]
pub struct DeepmindConfig {
    pub enabled: bool,
    pub mode: DeepmindMode,
}

impl DeepmindConfig {
    /// Tracing off, standard mode.
    pub fn new() -> (r: DeepmindConfig)
        ensures
            !r.enabled,
            r.mode == DeepmindMode::Standard,
    {
        DeepmindConfig { enabled: false, mode: DeepmindMode::Standard }
    }
}

/// Turns tracing on; the mode is kept.
pub fn enable_deepmind(config: &mut DeepmindConfig)
    ensures
        final(config).enabled,
        final(config).mode == old(config).mode,
{
    config.enabled = true;
}

/// Selects the augmented mode; whether tracing is on is kept.
pub fn enable_augmented_mode(config: &mut DeepmindConfig)
    ensures
        final(config).enabled == old(config).enabled,
        final(config).mode == DeepmindMode::Augmented,
{
    config.mode = DeepmindMode::Augmented;
}

/// Tracing is on, in augmented mode.
pub fn deepmind_enabled_augmented(config: &DeepmindConfig) -> (r: bool)
    ensures
        r == (config.enabled && config.mode == DeepmindMode::Augmented),
{
    config.enabled && config.mode == DeepmindMode::Augmented
}

/// Tracing is on, in standard mode.
pub fn deepmind_enabled_standard(config: &DeepmindConfig) -> (r: bool)
    ensures
        r == (config.enabled && config.mode == DeepmindMode::Standard),
{
    config.enabled && config.mode == DeepmindMode::Standard
}

/// The engine's instruction error (`solana_program::instruction::InstructionError`),
/// opaque here: only its display text, through `ToString`, is recorded.
#[verifier::external_type_specification]
#[verifier::external_body]
pub struct ExInstructionError(InstructionError);

/// The engine's transaction error (`solana_transaction_error::TransactionError`),
/// opaque here: only its display text, through `ToString`, is recorded.
#[verifier::external_type_specification]
#[verifier::external_body]
pub struct ExTransactionError(TransactionError);

/// `summary` is present and holds the display text of `error`.
pub open spec fn summarises_instruction_error(
    error: &InstructionError,
    summary: Option<ErrorSummary>,
) -> bool {
    summary matches Some(s) && to_string_from_display_ensures::<InstructionError>(error, s.error)
}

/// `summary` is present and holds the display text of `error`.
pub open spec fn summarises_transaction_error(
    error: &TransactionError,
    summary: Option<ErrorSummary>,
) -> bool {
    summary matches Some(s) && to_string_from_display_ensures::<TransactionError>(error, s.error)
}

/// Summary of an instruction error: its display text. Every error has one.
pub fn inst_err_to_pb(error: &InstructionError) -> (r: Option<ErrorSummary>)
    ensures
        summarises_instruction_error(error, r),
{
    Some(ErrorSummary { error: error.to_string() })
}

} // verus!

verus! {

/// Rejection of a call whose arguments the recorder cannot use.
#[derive(Debug, PartialEq, Eq, Structural)]
pub enum RecorderError {
    /// A transaction is identified by its first signature, and none was given.
    NoSignatures,
}

/// Decimal digit `d` as a character.
pub open spec fn digit_char(d: nat) -> char {
    seq!['0', '1', '2', '3', '4', '5', '6', '7', '8', '9'][d as int]
}

/// Decimal notation of `n`: most significant digit first, no padding.
pub open spec fn decimal(n: nat) -> Seq<char>
    decreases n,
{
    if n < 10 {
        seq![digit_char(n)]
    } else {
        decimal(n / 10).push(digit_char(n % 10))
    }
}

/// Relies on `u64`'s `Display` through `ToString::to_string`: the decimal
/// digits of the number, without sign or padding.
#[verifier::external_body]
fn decimal_string(n: u64) -> (r: String)
    ensures
        r@ == decimal(n as nat),
{
    n.to_string()
}

/// Name of the file of a batch: `dmlog-<file_number>-<batch_id>`.
pub open spec fn batch_filename(file_sequence: nat, batch_id: nat) -> Seq<char> {
    "dmlog-"@ + decimal(file_sequence) + "-"@ + decimal(batch_id)
}

/// Handoff line announcing a durably written batch file.
pub open spec fn batch_file_line_of(filename: Seq<char>) -> Seq<char> {
    "DMLOG BATCH_FILE "@ + filename
}

/// Handoff line reporting a failed batch write.
pub open spec fn error_file_line_of(message: Seq<char>) -> Seq<char> {
    "DMLOG ERROR FILE "@ + message
}

/// The traces of one batch, and where they will be written.
#[derive(Debug)]
pub struct DMBatchContext {
    pub batch_number: u64,
    pub trxs: Vec<DMTransaction>,
    pub path: String,
    pub filename: String,
}

/// `post` is `pre` with `step` applied to its last transaction; with no
/// transaction, `post` is `pre`.
pub open spec fn on_last(
    pre: DMBatchContext,
    post: DMBatchContext,
    step: spec_fn(DMTransaction, DMTransaction) -> bool,
) -> bool {
    &&& post.batch_number == pre.batch_number
    &&& post.path == pre.path
    &&& post.filename == pre.filename
    &&& if pre.trxs@.len() == 0 {
        post.trxs@ == pre.trxs@
    } else {
        &&& post.trxs@.len() == pre.trxs@.len()
        &&& post.trxs@.drop_last() == pre.trxs@.drop_last()
        &&& step(pre.trxs@.last(), post.trxs@.last())
    }
}

impl DMBatchContext {
    pub open spec fn wf(&self) -> bool {
        forall|i: int| 0 <= i < self.trxs@.len() ==> (#[trigger] self.trxs@[i]).wf()
    }

    /// The clock of the transaction being traced can still advance.
    pub open spec fn can_tick(&self) -> bool {
        self.trxs@.len() > 0 ==> self.trxs@.last().ordinal_count < u64::MAX
    }

    /// An empty batch, to be written to `<dir>/dmlog-<file_number + 1>-<batch_id>`.
    pub fn new(batch_id: u64, file_number: usize, dir: &str) -> (r: DMBatchContext)
        requires
            file_number < u64::MAX,
        ensures
            r.wf(),
            r.batch_number == batch_id,
            r.trxs@.len() == 0,
            r.filename@ == batch_filename((file_number + 1) as nat, batch_id as nat),
            r.path@ == dir@ + "/"@ + r.filename@,
    {
        let sequence = decimal_string(file_number as u64 + 1);
        let id = decimal_string(batch_id);
        let mut filename = String::from_str("dmlog-");
        filename.append(sequence.as_str());
        filename.append("-");
        filename.append(id.as_str());
        let mut path = String::from_str(dir);
        path.append("/");
        path.append(filename.as_str());
        proof {
            assert(filename@ =~= batch_filename((file_number + 1) as nat, batch_id as nat));
            assert(path@ =~= dir@ + "/"@ + filename@);
        }
        DMBatchContext { batch_number: batch_id, trxs: Vec::new(), path, filename }
    }

    /// Begins tracing a transaction, identified by its first signature.
    pub fn start_trx(
        &mut self,
        sigs: Vec<Vec<u8>>,
        num_required_signatures: u8,
        num_readonly_signed_accounts: u8,
        num_readonly_unsigned_accounts: u8,
        account_keys: Vec<Vec<u8>>,
        recent_blockhash: &[u8],
    ) -> (r: Result<(), RecorderError>)
        requires
            old(self).wf(),
        ensures
            final(self).wf(),
            r is Err <==> sigs@.len() == 0,
            r is Err ==> r == Err::<(), RecorderError>(RecorderError::NoSignatures) && *final(self)
                == *old(self),
            r is Ok ==> {
                let t = final(self).trxs@.last();
                let tx = t.pb_transaction;
                &&& final(self).trxs@.len() == old(self).trxs@.len() + 1
                &&& final(self).trxs@.drop_last() == old(self).trxs@
                &&& final(self).batch_number == old(self).batch_number
                &&& final(self).path == old(self).path
                &&& final(self).filename == old(self).filename
                &&& t.ordinal_count == 1
                &&& t.call_stack@ == seq![0u64]
                &&& tx.id == sigs@[0]
                &&& tx.additional_signatures@ == sigs@.drop_first()
                &&& tx.header == Some(
                    MessageHeader {
                        num_required_signatures: num_required_signatures as u32,
                        num_readonly_signed_accounts: num_readonly_signed_accounts as u32,
                        num_readonly_unsigned_accounts: num_readonly_unsigned_accounts as u32,
                    },
                )
                &&& tx.account_keys == account_keys
                &&& tx.recent_blockhash@ == recent_blockhash@
                &&& tx.instructions@.len() == 0
                &&& tx.logs@.len() == 0
                &&& !tx.failed
                &&& tx.error is None
                &&& tx.begin_ordinal == 1
                &&& tx.end_ordinal == 0
            },
    {
        if sigs.len() == 0 {
            return Err(RecorderError::NoSignatures);
        }
        let mut additional_signatures = sigs;
        let id = additional_signatures.remove(0);
        let header = MessageHeader {
            num_required_signatures: num_required_signatures as u32,
            num_readonly_signed_accounts: num_readonly_signed_accounts as u32,
            num_readonly_unsigned_accounts: num_readonly_unsigned_accounts as u32,
        };
        let pb_transaction = Transaction {
            id,
            additional_signatures,
            header: Some(header),
            account_keys,
            recent_blockhash: vstd::slice::slice_to_vec(recent_blockhash),
            instructions: Vec::new(),
            logs: Vec::new(),
            failed: false,
            error: None,
            begin_ordinal: 1,
            end_ordinal: 0,
        };
        let trx = DMTransaction::new(pb_transaction);
        self.trxs.push(trx);
        proof {
            assert(sigs@.drop_first() =~= sigs@.remove(0));
            assert(self.trxs@.drop_last() =~= old(self).trxs@);
            assert forall|i: int| 0 <= i < self.trxs@.len() implies (#[trigger] self.trxs@[i]).wf() by {
                if i < old(self).trxs@.len() {
                    assert(self.trxs@[i] == old(self).trxs@[i]);
                }
            }
        }
        Ok(())
    }

    /// Opens an instruction in the transaction being traced, if any.
    pub fn start_instruction(&mut self, program_id: &[u8], account_keys: Vec<Vec<u8>>, instruction_data: &[u8])
        requires
            old(self).wf(),
            old(self).can_tick(),
        ensures
            final(self).wf(),
            on_last(*old(self), *final(self), |a: DMTransaction, b: DMTransaction| started(a, b, program_id@, account_keys, instruction_data@)),
    {
        let n = self.trxs.len();
        if n > 0 {
            let ghost before = *self;
            self.trxs[n - 1].start_instruction(program_id, account_keys, instruction_data);
            proof {
                lemma_last_changed(before, *self);
            }
        }
    }

    /// Appends a log line to the active instruction of the transaction being traced, if any.
    pub fn add_instruction_log(&mut self, log: String)
        requires
            old(self).wf(),
            old(self).can_tick(),
        ensures
            final(self).wf(),
            on_last(*old(self), *final(self), |a: DMTransaction, b: DMTransaction| logged(a, b, log)),
    {
        let n = self.trxs.len();
        if n > 0 {
            let ghost before = *self;
            self.trxs[n - 1].add_instruction_log(log);
            proof {
                lemma_last_changed(before, *self);
            }
        }
    }

    /// Appends a transaction-level log line to the transaction being traced, if any.
    pub fn add_log(&mut self, log: String)
        requires
            old(self).wf(),
            old(self).can_tick(),
        ensures
            final(self).wf(),
            on_last(*old(self), *final(self), |a: DMTransaction, b: DMTransaction| top_logged(a, b, log)),
    {
        let n = self.trxs.len();
        if n > 0 {
            let ghost before = *self;
            self.trxs[n - 1].add_log(log);
            proof {
                lemma_last_changed(before, *self);
            }
        }
    }

    /// Records an account data change on the active instruction, if any.
    pub fn add_account_change(&mut self, pubkey: &[u8], pre: &[u8], post: &[u8])
        requires
            old(self).wf(),
        ensures
            final(self).wf(),
            on_last(*old(self), *final(self), |a: DMTransaction, b: DMTransaction| account_changed(a, b, pubkey@, pre@, post@)),
    {
        let n = self.trxs.len();
        if n > 0 {
            let ghost before = *self;
            self.trxs[n - 1].add_instruction_account_change(pubkey, pre, post);
            proof {
                lemma_last_changed(before, *self);
            }
        }
    }

    /// Records a balance change on the active instruction, if any.
    pub fn add_lamport_change(&mut self, pubkey: &[u8], pre: u64, post: u64)
        requires
            old(self).wf(),
        ensures
            final(self).wf(),
            on_last(*old(self), *final(self), |a: DMTransaction, b: DMTransaction| lamport_changed(a, b, pubkey@, pre, post)),
    {
        let n = self.trxs.len();
        if n > 0 {
            let ghost before = *self;
            self.trxs[n - 1].add_instruction_lamport_change(pubkey, pre, post);
            proof {
                lemma_last_changed(before, *self);
            }
        }
    }

    /// Closes the active instruction of the transaction being traced, if any.
    pub fn end_instruction(&mut self)
        requires
            old(self).wf(),
            old(self).can_tick(),
        ensures
            final(self).wf(),
            on_last(*old(self), *final(self), |a: DMTransaction, b: DMTransaction| ended(a, b)),
    {
        let n = self.trxs.len();
        if n > 0 {
            let ghost before = *self;
            self.trxs[n - 1].end_instruction();
            proof {
                lemma_last_changed(before, *self);
            }
        }
    }

    /// Marks the active instruction, if any, failed with the given summary.
    pub fn fail_instruction_with(&mut self, summary: ErrorSummary)
        requires
            old(self).wf(),
        ensures
            final(self).wf(),
            on_last(*old(self), *final(self), |a: DMTransaction, b: DMTransaction| instruction_failed(a, b, Some(summary))),
    {
        let n = self.trxs.len();
        if n > 0 {
            let ghost before = *self;
            self.trxs[n - 1].fail_instruction_with(summary);
            proof {
                lemma_last_changed(before, *self);
            }
        }
    }

    /// Marks the active instruction, if any, failed, summarised by the error's display text.
    pub fn error_instruction(&mut self, error: &InstructionError)
        requires
            old(self).wf(),
        ensures
            final(self).wf(),
            on_last(*old(self), *final(self), |a: DMTransaction, b: DMTransaction| error_instruction_recorded(a, b, error)),
    {
        let n = self.trxs.len();
        if n > 0 {
            let ghost before = *self;
            self.trxs[n - 1].error_instruction(error);
            proof {
                lemma_last_changed(before, *self);
            }
        }
    }

    /// Marks the transaction being traced, if any, failed with the given summary.
    pub fn fail_trx_with(&mut self, summary: ErrorSummary)
        requires
            old(self).wf(),
        ensures
            final(self).wf(),
            on_last(*old(self), *final(self), |a: DMTransaction, b: DMTransaction| trx_failed(a, b, Some(summary))),
    {
        let n = self.trxs.len();
        if n > 0 {
            let ghost before = *self;
            self.trxs[n - 1].fail_with(summary);
            proof {
                lemma_last_changed(before, *self);
            }
        }
    }

    /// Marks the transaction being traced, if any, failed, summarised by the error's display text.
    pub fn error_trx(&mut self, error: &TransactionError)
        requires
            old(self).wf(),
        ensures
            final(self).wf(),
            on_last(*old(self), *final(self), |a: DMTransaction, b: DMTransaction| error_trx_recorded(a, b, error)),
    {
        let n = self.trxs.len();
        if n > 0 {
            let ghost before = *self;
            self.trxs[n - 1].error(error);
            proof {
                lemma_last_changed(before, *self);
            }
        }
    }

    /// The records of `trxs`, in order.
    pub open spec fn records(trxs: Seq<DMTransaction>) -> Seq<Transaction> {
        trxs.map_values(|t: DMTransaction| t.pb_transaction)
    }

    /// Moves every traced transaction, in order, into a batch; the context
    /// keeps no transaction.
    pub fn take_batch(&mut self) -> (r: Batch)
        requires
            old(self).wf(),
        ensures
            final(self).wf(),
            final(self).trxs@.len() == 0,
            final(self).batch_number == old(self).batch_number,
            final(self).path == old(self).path,
            final(self).filename == old(self).filename,
            r.transactions@ == Self::records(old(self).trxs@),
    {
        let mut trxs: Vec<DMTransaction> = Vec::new();
        std::mem::swap(&mut self.trxs, &mut trxs);
        let ghost orig = trxs@;
        let ghost n = orig.len();
        let mut reversed: Vec<Transaction> = Vec::new();
        while trxs.len() > 0
            invariant
                n == orig.len(),
                trxs@ == orig.take(trxs@.len() as int),
                reversed@.len() == n - trxs@.len(),
                forall|j: int|
                    0 <= j < reversed@.len() ==> #[trigger] reversed@[j] == orig[n - 1
                        - j].pb_transaction,
            decreases trxs@.len(),
        {
            let ghost k = trxs@.len();
            let t = trxs.pop().unwrap();
            reversed.push(t.pb_transaction);
            proof {
                assert(trxs@ =~= orig.take(k - 1));
            }
        }
        let mut transactions: Vec<Transaction> = Vec::new();
        while reversed.len() > 0
            invariant
                n == orig.len(),
                reversed@.len() + transactions@.len() == n,
                forall|j: int|
                    0 <= j < reversed@.len() ==> #[trigger] reversed@[j] == orig[n - 1
                        - j].pb_transaction,
                forall|j: int|
                    0 <= j < transactions@.len() ==> #[trigger] transactions@[j]
                        == orig[j].pb_transaction,
            decreases reversed@.len(),
        {
            let t = reversed.pop().unwrap();
            transactions.push(t);
        }
        assert(transactions@ =~= Self::records(orig));
        Batch { transactions }
    }

    /// Drains the batch and returns the bytes of its file.
    pub fn flush(&mut self) -> (r: Vec<u8>)
        requires
            old(self).wf(),
        ensures
            final(self).wf(),
            final(self).trxs@.len() == 0,
            final(self).batch_number == old(self).batch_number,
            final(self).path == old(self).path,
            final(self).filename == old(self).filename,
            r@ == batch_bytes(Self::records(old(self).trxs@)),
    {
        let batch = self.take_batch();
        encode_batch(&batch)
    }

    /// The line announcing this batch's file once it is durably written.
    pub fn batch_file_line(&self) -> (r: String)
        ensures
            r@ == batch_file_line_of(self.filename@),
    {
        let mut line = String::from_str("DMLOG BATCH_FILE ");
        line.append(self.filename.as_str());
        line
    }

    /// The line reporting that writing a batch failed with `message`.
    pub fn error_file_line(message: &str) -> (r: String)
        ensures
            r@ == error_file_line_of(message@),
    {
        let mut line = String::from_str("DMLOG ERROR FILE ");
        line.append(message);
        line
    }

    /// The handoff line for the outcome of writing this batch's file.
    pub fn handoff_line(&self, write_result: &Result<(), String>) -> (r: String)
        ensures
            match write_result {
                Ok(_) => r@ == batch_file_line_of(self.filename@),
                Err(message) => r@ == error_file_line_of(message@),
            },
    {
        match write_result {
            Ok(_) => self.batch_file_line(),
            Err(message) => Self::error_file_line(message.as_str()),
        }
    }
}

/// Changing the last transaction in place, keeping it well formed, keeps the
/// batch well formed and the other transactions as they were.
proof fn lemma_last_changed(pre: DMBatchContext, post: DMBatchContext)
    requires
        pre.wf(),
        pre.trxs@.len() > 0,
        post.trxs@ == pre.trxs@.update(pre.trxs@.len() - 1, post.trxs@.last()),
        post.trxs@.last().wf(),
    ensures
        post.wf(),
        post.trxs@.drop_last() == pre.trxs@.drop_last(),
{
    assert(post.trxs@.drop_last() =~= pre.trxs@.drop_last());
    assert forall|i: int| 0 <= i < post.trxs@.len() implies (#[trigger] post.trxs@[i]).wf() by {
        if i < pre.trxs@.len() - 1 {
            assert(post.trxs@[i] == pre.trxs@[i]);
        }
    }
}

/// Flushing a recorder that holds no transaction yields the empty batch.
pub proof fn lemma_empty_flush()
    ensures
        batch_bytes(DMBatchContext::records(Seq::empty())) == Seq::<u8>::empty(),
{
    assert(DMBatchContext::records(Seq::empty()) =~= Seq::<Transaction>::empty());
}

} // verus!
