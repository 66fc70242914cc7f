//! The trace of one transaction: its call stack, its ordinal clock, and the
//! span tree they build.
use crate::codec::{AccountChange, BalanceChange, ErrorSummary, Instruction, Log, Transaction};
use crate::deepmind::{inst_err_to_pb, summarises_instruction_error, summarises_transaction_error};
use num_traits::ToPrimitive;
use solana_program::instruction::InstructionError;
use solana_transaction_error::TransactionError;
use vstd::prelude::*;

verus! {

/// Relies on `num_traits::ToPrimitive::to_u64` for `usize`: `Some` of the same
/// number whenever it fits in a `u64`, `None` otherwise.
#[verifier::external_body]
fn usize_to_u64(n: usize) -> (r: Option<u64>)
    ensures
        r == (if n as int <= u64::MAX as int { Some(n as u64) } else { None::<u64> }),
{
    n.to_u64()
}

/// Whether instruction `i` stamped ordinal `o`: when it opened, when it
/// closed, or on one of its log lines.
pub open spec fn instruction_stamps(i: Instruction, o: u64) -> bool {
    ||| i.begin_ordinal == o
    ||| (i.end_ordinal != 0 && i.end_ordinal == o)
    ||| exists|j: int| 0 <= j < i.logs@.len() && #[trigger] i.logs@[j].ordinal == o
}

/// `b` keeps the identity, position and opening ordinal of `a`.
pub open spec fn same_span(a: Instruction, b: Instruction) -> bool {
    &&& b.program_id == a.program_id
    &&& b.account_keys == a.account_keys
    &&& b.data == a.data
    &&& b.index == a.index
    &&& b.parent_index == a.parent_index
    &&& b.depth == a.depth
    &&& b.begin_ordinal == a.begin_ordinal
}

impl Instruction {
    /// Marks the instruction failed, with the given summary.
    pub fn fail_with(&mut self, summary: ErrorSummary)
        ensures
            final(self).failed,
            final(self).error == Some(summary),
            same_span(*old(self), *final(self)),
            final(self).end_ordinal == old(self).end_ordinal,
            final(self).logs == old(self).logs,
            final(self).account_changes == old(self).account_changes,
            final(self).balance_changes == old(self).balance_changes,
    {
        self.failed = true;
        self.error = Some(summary);
    }

    /// Marks the instruction failed, summarised by the error's display text.
    pub fn error(&mut self, error: &InstructionError)
        ensures
            final(self).failed,
            summarises_instruction_error(error, final(self).error),
            same_span(*old(self), *final(self)),
            final(self).end_ordinal == old(self).end_ordinal,
            final(self).logs == old(self).logs,
            final(self).account_changes == old(self).account_changes,
            final(self).balance_changes == old(self).balance_changes,
    {
        let summary = inst_err_to_pb(error);
        match summary {
            Some(s) => self.fail_with(s),
            None => {},
        }
    }

    /// Appends a snapshot pair of an account's data.
    pub fn add_account_change(&mut self, pubkey: &[u8], pre: &[u8], post: &[u8])
        ensures
            final(self).account_changes@.len() == old(self).account_changes@.len() + 1,
            final(self).account_changes@.drop_last() == old(self).account_changes@,
            final(self).account_changes@.last().new_data_length == post@.len(),
            final(self).account_changes@.last().pubkey@ == pubkey@,
            final(self).account_changes@.last().prev_data@ == pre@,
            final(self).account_changes@.last().new_data@ == post@,
            same_span(*old(self), *final(self)),
            final(self).end_ordinal == old(self).end_ordinal,
            final(self).logs == old(self).logs,
            final(self).balance_changes == old(self).balance_changes,
            final(self).failed == old(self).failed,
            final(self).error == old(self).error,
    {
        let len = post.len();
        let new_data_length = match usize_to_u64(len) {
            Some(n) => n,
            None => u64::MAX,
        };
        let change = AccountChange {
            pubkey: vstd::slice::slice_to_vec(pubkey),
            prev_data: vstd::slice::slice_to_vec(pre),
            new_data: vstd::slice::slice_to_vec(post),
            new_data_length,
        };
        self.account_changes.push(change);
    }

    /// Appends the balance of an account before and after.
    pub fn add_lamport_change(&mut self, pubkey: &[u8], pre: u64, post: u64)
        ensures
            final(self).balance_changes@.len() == old(self).balance_changes@.len() + 1,
            final(self).balance_changes@.drop_last() == old(self).balance_changes@,
            final(self).balance_changes@.last().pubkey@ == pubkey@,
            final(self).balance_changes@.last().prev_lamports == pre,
            final(self).balance_changes@.last().new_lamports == post,
            same_span(*old(self), *final(self)),
            final(self).end_ordinal == old(self).end_ordinal,
            final(self).logs == old(self).logs,
            final(self).account_changes == old(self).account_changes,
            final(self).failed == old(self).failed,
            final(self).error == old(self).error,
    {
        let change = BalanceChange {
            pubkey: vstd::slice::slice_to_vec(pubkey),
            prev_lamports: pre,
            new_lamports: post,
        };
        self.balance_changes.push(change);
    }
}

} // verus!

verus! {

/// Trace state of one transaction: its record, its ordinal clock, and the
/// stack of open instruction indices, rooted by the sentinel 0.
#[derive(Debug)]
pub struct DMTransaction {
    pub ordinal_count: u64,
    pub pb_transaction: Transaction,
    pub call_stack: Vec<u64>,
}

impl DMTransaction {
    pub open spec fn instrs(&self) -> Seq<Instruction> {
        self.pb_transaction.instructions@
    }

    /// Index of the active instruction; 0 when none is open.
    pub open spec fn top(&self) -> u64 {
        self.call_stack@.last()
    }

    pub open spec fn has_active(&self) -> bool {
        self.top() > 0
    }

    /// The record of the active instruction.
    pub open spec fn active(&self) -> Instruction {
        self.instrs()[self.top() - 1]
    }

    /// Whether instruction `k` (0-based) is on the call stack.
    pub open spec fn is_open(&self, k: int) -> bool {
        exists|i: int| 1 <= i < self.call_stack@.len() && self.call_stack@[i] == k + 1
    }

    /// Whether ordinal `o` was stamped on some event of this transaction.
    pub open spec fn stamps(&self, o: u64) -> bool {
        ||| o == self.pb_transaction.begin_ordinal
        ||| exists|k: int|
            0 <= k < self.instrs().len() && #[trigger] instruction_stamps(self.instrs()[k], o)
        ||| exists|j: int|
            0 <= j < self.pb_transaction.logs@.len() && #[trigger] self.pb_transaction.logs@[j].ordinal
                == o
    }

    /// The call stack: rooted by 0, then strictly increasing indices of
    /// instructions, each a child of the one below it.
    pub open spec fn wf_stack(&self) -> bool {
        let st = self.call_stack@;
        let ins = self.instrs();
        &&& st.len() >= 1
        &&& st[0] == 0
        &&& forall|i: int| 1 <= i < st.len() ==> 1 <= #[trigger] st[i] <= ins.len()
        &&& forall|i: int, j: int| 0 <= i < j < st.len() ==> #[trigger] st[i] < #[trigger] st[j]
        &&& forall|i: int|
            1 <= i < st.len() ==> ins[#[trigger] st[i] - 1].parent_index == st[i - 1] && ins[st[i]
                - 1].depth == i - 1
        &&& forall|k: int|
            0 <= k < ins.len() ==> (#[trigger] ins[k].end_ordinal == 0 <==> self.is_open(k))
    }

    /// The span tree: positions, parents and depths.
    pub open spec fn wf_tree(&self) -> bool {
        let ins = self.instrs();
        forall|k: int|
            0 <= k < ins.len() ==> {
                let p = #[trigger] ins[k].parent_index;
                &&& ins[k].index == k + 1
                &&& p < ins[k].index
                &&& p == 0 ==> ins[k].depth == 0
                &&& p > 0 ==> ins[k].depth == ins[p - 1].depth + 1
                &&& p > 0 ==> ins[p - 1].begin_ordinal < ins[k].begin_ordinal
                &&& p > 0 && ins[p - 1].end_ordinal != 0 ==> ins[k].end_ordinal != 0
                    && ins[k].end_ordinal < ins[p - 1].end_ordinal
            }
    }

    /// The ordinals: every event's ordinal lies within its span, and the
    /// stamped ordinals are exactly 1 through the clock's value.
    pub open spec fn wf_ordinals(&self) -> bool {
        let ins = self.instrs();
        &&& self.pb_transaction.begin_ordinal == 1
        &&& ins.len() < self.ordinal_count
        &&& forall|k: int|
            0 <= k < ins.len() ==> {
                let i = #[trigger] ins[k];
                &&& 1 < i.begin_ordinal <= self.ordinal_count
                &&& i.end_ordinal == 0 || i.begin_ordinal < i.end_ordinal <= self.ordinal_count
                &&& forall|j: int|
                    0 <= j < i.logs@.len() ==> i.begin_ordinal < #[trigger] i.logs@[j].ordinal
                        <= self.ordinal_count && (i.end_ordinal == 0 || i.logs@[j].ordinal
                        < i.end_ordinal)
            }
        &&& forall|j: int|
            0 <= j < self.pb_transaction.logs@.len() ==> 1
                < #[trigger] self.pb_transaction.logs@[j].ordinal <= self.ordinal_count
        &&& forall|o: u64| self.stamps(o) <==> 1 <= o <= self.ordinal_count
    }

    pub open spec fn wf(&self) -> bool {
        &&& self.wf_stack()
        &&& self.wf_tree()
        &&& self.wf_ordinals()
    }

    /// A fresh transaction trace: clock at 1, empty stack but for the root.
    pub fn new(pb_transaction: Transaction) -> (r: DMTransaction)
        requires
            pb_transaction.begin_ordinal == 1,
            pb_transaction.instructions@.len() == 0,
            pb_transaction.logs@.len() == 0,
        ensures
            r.wf(),
            r.ordinal_count == 1,
            r.call_stack@ == seq![0u64],
            r.pb_transaction == pb_transaction,
    {
        let mut call_stack: Vec<u64> = Vec::new();
        call_stack.push(0);
        let r = DMTransaction { ordinal_count: 1, pb_transaction, call_stack };
        assert(r.call_stack@ =~= seq![0u64]);
        assert forall|o: u64| r.stamps(o) <==> 1 <= o <= r.ordinal_count by {
            if r.stamps(o) {
                assert(o == 1);
            }
        }
        r
    }

    /// Opens an instruction as a child of the active one (or as a root).
    pub fn start_instruction(
        &mut self,
        program_id: &[u8],
        account_keys: Vec<Vec<u8>>,
        instruction_data: &[u8],
    )
        requires
            old(self).wf(),
            old(self).ordinal_count < u64::MAX,
        ensures
            final(self).wf(),
            started(*old(self), *final(self), program_id@, account_keys, instruction_data@),
    {
        let ghost pre = *self;
        self.ordinal_count = self.ordinal_count + 1;
        let parent = self.call_stack[self.call_stack.len() - 1];
        let index = self.pb_transaction.instructions.len() as u64 + 1;
        let depth = (self.call_stack.len() - 1) as u64;
        self.call_stack.push(index);
        let instruction = Instruction {
            program_id: vstd::slice::slice_to_vec(program_id),
            account_keys,
            data: vstd::slice::slice_to_vec(instruction_data),
            index,
            parent_index: parent,
            depth,
            balance_changes: Vec::new(),
            account_changes: Vec::new(),
            logs: Vec::new(),
            begin_ordinal: self.ordinal_count,
            end_ordinal: 0,
            failed: false,
            error: None,
        };
        self.pb_transaction.instructions.push(instruction);
        proof {
            assert(self.instrs().drop_last() =~= pre.instrs());
            assert(self.call_stack@ =~= pre.call_stack@.push(index));
            lemma_open_keeps_stack(pre, *self);
            lemma_open_keeps_tree(pre, *self);
            lemma_open_keeps_ordinals(pre, *self);
        }
    }

    /// The record of the active instruction, to be changed in place.
    pub fn active_instruction(&mut self) -> (r: &mut Instruction)
        requires
            old(self).wf(),
            old(self).has_active(),
        ensures
            *r == old(self).active(),
            final(self).instrs() == old(self).instrs().update(old(self).top() - 1, *final(r)),
            final(self).ordinal_count == old(self).ordinal_count,
            final(self).call_stack == old(self).call_stack,
            final(self).pb_transaction == (Transaction {
                instructions: final(self).pb_transaction.instructions,
                ..old(self).pb_transaction
            }),
    {
        let top = self.call_stack[self.call_stack.len() - 1];
        let len = self.pb_transaction.instructions.len();
        proof {
            let st = self.call_stack@;
            assert(1 <= st[st.len() - 1] <= self.instrs().len());
        }
        assert(1 <= top && top as int <= len as int);
        let k = (top - 1) as usize;
        &mut self.pb_transaction.instructions[k]
    }

    /// Closes the active instruction; without one, does nothing.
    pub fn end_instruction(&mut self)
        requires
            old(self).wf(),
            old(self).ordinal_count < u64::MAX,
        ensures
            final(self).wf(),
            ended(*old(self), *final(self)),
    {
        let top = self.call_stack[self.call_stack.len() - 1];
        if top == 0 {
            return;
        }
        let ghost pre = *self;
        let ordinal = self.ordinal_count + 1;
        let instruction = self.active_instruction();
        instruction.end_ordinal = ordinal;
        self.ordinal_count = ordinal;
        self.call_stack.pop();
        proof {
            lemma_close_keeps_stack(pre, *self);
            lemma_close_keeps_tree(pre, *self);
            lemma_close_keeps_ordinals(pre, *self);
        }
    }

    /// Appends a log line to the active instruction; without one, does nothing.
    pub fn add_instruction_log(&mut self, log: String)
        requires
            old(self).wf(),
            old(self).ordinal_count < u64::MAX,
        ensures
            final(self).wf(),
            logged(*old(self), *final(self), log),
    {
        let top = self.call_stack[self.call_stack.len() - 1];
        if top == 0 {
            return;
        }
        let ghost pre = *self;
        let ordinal = self.ordinal_count + 1;
        let instruction = self.active_instruction();
        instruction.logs.push(Log { message: log, ordinal });
        self.ordinal_count = ordinal;
        proof {
            lemma_log_keeps_wf(pre, *self, log);
        }
    }

    /// Appends a transaction-level log line.
    pub fn add_log(&mut self, log: String)
        requires
            old(self).wf(),
            old(self).ordinal_count < u64::MAX,
        ensures
            final(self).wf(),
            top_logged(*old(self), *final(self), log),
    {
        let ghost pre = *self;
        let ordinal = self.ordinal_count + 1;
        self.pb_transaction.logs.push(Log { message: log, ordinal });
        self.ordinal_count = ordinal;
        proof {
            assert(self.pb_transaction.logs@.drop_last() =~= pre.pb_transaction.logs@);
            lemma_top_log_keeps_wf(pre, *self);
        }
    }

    /// Records an account data change on the active instruction; without
    /// one, does nothing. The clock does not move.
    pub fn add_instruction_account_change(&mut self, pubkey: &[u8], pre: &[u8], post: &[u8])
        requires
            old(self).wf(),
        ensures
            final(self).wf(),
            account_changed(*old(self), *final(self), pubkey@, pre@, post@),
    {
        let top = self.call_stack[self.call_stack.len() - 1];
        if top == 0 {
            return;
        }
        let ghost before = *self;
        let instruction = self.active_instruction();
        instruction.add_account_change(pubkey, pre, post);
        proof {
            lemma_annotate_keeps_wf(before, *self);
        }
    }

    /// Records a balance change on the active instruction; without one, does
    /// nothing. The clock does not move.
    pub fn add_instruction_lamport_change(&mut self, pubkey: &[u8], pre: u64, post: u64)
        requires
            old(self).wf(),
        ensures
            final(self).wf(),
            lamport_changed(*old(self), *final(self), pubkey@, pre, post),
    {
        let top = self.call_stack[self.call_stack.len() - 1];
        if top == 0 {
            return;
        }
        let ghost before = *self;
        let instruction = self.active_instruction();
        instruction.add_lamport_change(pubkey, pre, post);
        proof {
            lemma_annotate_keeps_wf(before, *self);
        }
    }

    /// Marks the active instruction failed with the given summary; without
    /// one, does nothing.
    pub fn fail_instruction_with(&mut self, summary: ErrorSummary)
        requires
            old(self).wf(),
        ensures
            final(self).wf(),
            instruction_failed(*old(self), *final(self), Some(summary)),
    {
        let top = self.call_stack[self.call_stack.len() - 1];
        if top == 0 {
            return;
        }
        let ghost before = *self;
        let instruction = self.active_instruction();
        instruction.fail_with(summary);
        proof {
            lemma_annotate_keeps_wf(before, *self);
        }
    }

    /// Marks the active instruction failed, summarised by the error's display
    /// text; without an active instruction, does nothing.
    pub fn error_instruction(&mut self, error: &InstructionError)
        requires
            old(self).wf(),
        ensures
            final(self).wf(),
            error_instruction_recorded(*old(self), *final(self), error),
    {
        let summary = inst_err_to_pb(error);
        if let Some(summary) = summary {
            self.fail_instruction_with(summary);
        }
    }

    /// Marks the transaction failed with the given summary.
    pub fn fail_with(&mut self, summary: ErrorSummary)
        requires
            old(self).wf(),
        ensures
            final(self).wf(),
            trx_failed(*old(self), *final(self), Some(summary)),
    {
        let ghost pre = *self;
        self.pb_transaction.failed = true;
        self.pb_transaction.error = Some(summary);
        proof {
            lemma_stamps_same(pre, *self);
        }
    }

    /// Marks the transaction failed, summarised by the error's display text.
    pub fn error(&mut self, error: &TransactionError)
        requires
            old(self).wf(),
        ensures
            final(self).wf(),
            error_trx_recorded(*old(self), *final(self), error),
    {
        let summary = ErrorSummary { error: error.to_string() };
        self.fail_with(summary);
    }
}


/// Effect of `start_instruction`: a new open instruction, child of the
/// active one, stamped with the next ordinal.
pub open spec fn started(
    pre: DMTransaction,
    post: DMTransaction,
    program_id: Seq<u8>,
    account_keys: Vec<Vec<u8>>,
    data: Seq<u8>,
) -> bool {
    let i = post.instrs().last();
    &&& opens(pre, post)
    &&& i.program_id@ == program_id
    &&& i.account_keys == account_keys
    &&& i.data@ == data
    &&& i.account_changes@.len() == 0
    &&& i.balance_changes@.len() == 0
    &&& !i.failed
    &&& i.error is None
    &&& post.pb_transaction == (Transaction {
        instructions: post.pb_transaction.instructions,
        ..pre.pb_transaction
    })
}

/// Effect of `end_instruction`: closes the active instruction, if any.
pub open spec fn ended(pre: DMTransaction, post: DMTransaction) -> bool {
    if pre.has_active() {
        closes(pre, post)
    } else {
        post == pre
    }
}

/// Effect of `add_instruction_log`: a log line on the active instruction, if any.
pub open spec fn logged(pre: DMTransaction, post: DMTransaction, message: String) -> bool {
    if pre.has_active() {
        logs_to_active(pre, post, message)
    } else {
        post == pre
    }
}

/// Effect of `add_instruction_account_change`.
pub open spec fn account_changed(
    pre: DMTransaction,
    post: DMTransaction,
    pubkey: Seq<u8>,
    before: Seq<u8>,
    after: Seq<u8>,
) -> bool {
    if pre.has_active() {
        let a = post.active().account_changes@;
        &&& annotates(pre, post)
        &&& a.drop_last() == pre.active().account_changes@
        &&& a.len() == pre.active().account_changes@.len() + 1
        &&& a.last().pubkey@ == pubkey
        &&& a.last().prev_data@ == before
        &&& a.last().new_data@ == after
        &&& a.last().new_data_length == after.len()
        &&& post.active().balance_changes == pre.active().balance_changes
        &&& post.active().failed == pre.active().failed
        &&& post.active().error == pre.active().error
    } else {
        post == pre
    }
}

/// Effect of `add_instruction_lamport_change`.
pub open spec fn lamport_changed(
    pre: DMTransaction,
    post: DMTransaction,
    pubkey: Seq<u8>,
    before: u64,
    after: u64,
) -> bool {
    if pre.has_active() {
        let b = post.active().balance_changes@;
        &&& annotates(pre, post)
        &&& b.drop_last() == pre.active().balance_changes@
        &&& b.len() == pre.active().balance_changes@.len() + 1
        &&& b.last().pubkey@ == pubkey
        &&& b.last().prev_lamports == before
        &&& b.last().new_lamports == after
        &&& post.active().account_changes == pre.active().account_changes
        &&& post.active().failed == pre.active().failed
        &&& post.active().error == pre.active().error
    } else {
        post == pre
    }
}

/// Effect of marking the active instruction, if any, failed with `summary`.
pub open spec fn instruction_failed(
    pre: DMTransaction,
    post: DMTransaction,
    summary: Option<ErrorSummary>,
) -> bool {
    if pre.has_active() {
        &&& annotates(pre, post)
        &&& post.active().failed
        &&& post.active().error == summary
        &&& post.active().account_changes == pre.active().account_changes
        &&& post.active().balance_changes == pre.active().balance_changes
    } else {
        post == pre
    }
}

/// Effect of `add_log`: a transaction-level log line, stamped with the next ordinal.
pub open spec fn top_logged(pre: DMTransaction, post: DMTransaction, message: String) -> bool {
    &&& post.ordinal_count == pre.ordinal_count + 1
    &&& post.call_stack == pre.call_stack
    &&& post.pb_transaction.logs@ == pre.pb_transaction.logs@.push(
        Log { message, ordinal: post.ordinal_count },
    )
    &&& post.pb_transaction == (Transaction {
        logs: post.pb_transaction.logs,
        ..pre.pb_transaction
    })
}

/// Effect of marking the transaction failed with `summary`.
pub open spec fn trx_failed(
    pre: DMTransaction,
    post: DMTransaction,
    summary: Option<ErrorSummary>,
) -> bool {
    &&& post.ordinal_count == pre.ordinal_count
    &&& post.call_stack == pre.call_stack
    &&& post.pb_transaction == (Transaction { failed: true, error: summary, ..pre.pb_transaction })
}

/// Effect of `error_instruction`: the active instruction, if any, is marked
/// failed with the display text of `error`.
pub open spec fn error_instruction_recorded(
    pre: DMTransaction,
    post: DMTransaction,
    error: &InstructionError,
) -> bool {
    &&& instruction_failed(pre, post, post.active().error)
    &&& pre.has_active() ==> summarises_instruction_error(error, post.active().error)
}

/// Effect of `DMTransaction::error`: the transaction is marked failed with
/// the display text of `error`.
pub open spec fn error_trx_recorded(
    pre: DMTransaction,
    post: DMTransaction,
    error: &TransactionError,
) -> bool {
    &&& trx_failed(pre, post, post.pb_transaction.error)
    &&& summarises_transaction_error(error, post.pb_transaction.error)
}

/// The shape of a call of `start_instruction`, for the lemmas below.
pub open spec fn opens(pre: DMTransaction, post: DMTransaction) -> bool {
    let len = pre.instrs().len();
    let i = post.instrs().last();
    &&& post.ordinal_count == pre.ordinal_count + 1
    &&& post.call_stack@ == pre.call_stack@.push((len + 1) as u64)
    &&& post.instrs().len() == len + 1
    &&& post.instrs().drop_last() == pre.instrs()
    &&& i.index == len + 1
    &&& i.parent_index == pre.top()
    &&& i.depth == pre.call_stack@.len() - 1
    &&& i.begin_ordinal == post.ordinal_count
    &&& i.end_ordinal == 0
    &&& i.logs@.len() == 0
    &&& post.pb_transaction.begin_ordinal == pre.pb_transaction.begin_ordinal
    &&& post.pb_transaction.logs == pre.pb_transaction.logs
}

#[verifier::rlimit(40)]
proof fn lemma_open_keeps_stack(pre: DMTransaction, post: DMTransaction)
    requires
        pre.wf(),
        opens(pre, post),
    ensures
        post.wf_stack(),
{
    let len = pre.instrs().len();
    let m = pre.call_stack@.len();
    assert forall|k: int| 0 <= k < len implies post.instrs()[k] == pre.instrs()[k] by {
        assert(post.instrs()[k] == post.instrs().drop_last()[k]);
    }
    assert forall|i: int| 0 <= i < m implies post.call_stack@[i] == pre.call_stack@[i] by {}
    let parent = pre.top();
    if parent == 0 && m > 1 {
        assert(pre.call_stack@[m - 1] >= 1);
    }
    lemma_open_stack_order(pre, post);
    lemma_open_stack_open(pre, post);
}

#[verifier::rlimit(40)]
proof fn lemma_open_stack_order(pre: DMTransaction, post: DMTransaction)
    requires
        pre.wf(),
        opens(pre, post),
    ensures
        forall|i: int, j: int|
            0 <= i < j < post.call_stack@.len() ==> #[trigger] post.call_stack@[i]
                < #[trigger] post.call_stack@[j],
{
    let len = pre.instrs().len();
    let m = pre.call_stack@.len();
    assert forall|i: int, j: int| 0 <= i < j < post.call_stack@.len() implies #[trigger] post.call_stack@[i]
        < #[trigger] post.call_stack@[j] by {
        assert(post.call_stack@[i] == pre.call_stack@[i]);
        if j == m {
            if i >= 1 {
                assert(pre.call_stack@[i] <= len);
            }
        } else {
            assert(pre.call_stack@[i] < pre.call_stack@[j]);
        }
    }
}

#[verifier::rlimit(40)]
proof fn lemma_open_stack_open(pre: DMTransaction, post: DMTransaction)
    requires
        pre.wf(),
        opens(pre, post),
    ensures
        forall|k: int|
            0 <= k < post.instrs().len() ==> (#[trigger] post.instrs()[k].end_ordinal == 0
                <==> post.is_open(k)),
{
    let len = pre.instrs().len();
    let m = pre.call_stack@.len();
    assert forall|k: int| 0 <= k < post.instrs().len() implies (
    #[trigger] post.instrs()[k].end_ordinal == 0 <==> post.is_open(k)) by {
        if k < len {
            assert(post.instrs()[k] == post.instrs().drop_last()[k]);
            if pre.is_open(k) {
                let i = choose|i: int| 1 <= i < m && pre.call_stack@[i] == k + 1;
                assert(post.call_stack@[i] == k + 1);
            }
            if post.is_open(k) {
                let i = choose|i: int| 1 <= i < post.call_stack@.len() && post.call_stack@[i] == k + 1;
                assert(i < m);
                assert(pre.call_stack@[i] == k + 1);
            }
        } else {
            assert(post.call_stack@[m as int] == k + 1);
        }
    }
}

#[verifier::rlimit(40)]
proof fn lemma_open_keeps_tree(pre: DMTransaction, post: DMTransaction)
    requires
        pre.wf(),
        opens(pre, post),
    ensures
        post.wf_tree(),
{
    let len = pre.instrs().len();
    assert forall|k: int| 0 <= k < len implies post.instrs()[k] == pre.instrs()[k] by {
        assert(post.instrs()[k] == post.instrs().drop_last()[k]);
    }
    let parent = pre.top();
    let m = pre.call_stack@.len();
    if parent > 0 {
        assert(pre.call_stack@[m - 1] == parent);
        assert(pre.is_open(parent - 1));
    } else if m > 1 {
        assert(pre.call_stack@[m - 1] >= 1);
    }
}

#[verifier::rlimit(40)]
proof fn lemma_open_keeps_ordinals(pre: DMTransaction, post: DMTransaction)
    requires
        pre.wf(),
        opens(pre, post),
    ensures
        post.wf_ordinals(),
{
    let len = pre.instrs().len();
    let n = post.ordinal_count;
    assert forall|k: int| 0 <= k < len implies post.instrs()[k] == pre.instrs()[k] by {
        assert(post.instrs()[k] == post.instrs().drop_last()[k]);
    }
    assert forall|o: u64| post.stamps(o) <==> (pre.stamps(o) || o == n) by {
        if pre.stamps(o) && o != pre.pb_transaction.begin_ordinal {
            if exists|k: int|
                0 <= k < pre.instrs().len() && #[trigger] instruction_stamps(pre.instrs()[k], o) {
                let k = choose|k: int|
                    0 <= k < pre.instrs().len() && #[trigger] instruction_stamps(
                        pre.instrs()[k],
                        o,
                    );
                assert(instruction_stamps(post.instrs()[k], o));
            }
        }
        if o == n {
            assert(instruction_stamps(post.instrs()[len as int], o));
        }
        if post.stamps(o) && o != n && o != post.pb_transaction.begin_ordinal {
            if exists|k: int|
                0 <= k < post.instrs().len() && #[trigger] instruction_stamps(post.instrs()[k], o) {
                let k = choose|k: int|
                    0 <= k < post.instrs().len() && #[trigger] instruction_stamps(
                        post.instrs()[k],
                        o,
                    );
                if k < len {
                    assert(instruction_stamps(pre.instrs()[k], o));
                }
            }
        }
    }
}


/// The shape of a call of `end_instruction` with an active instruction.
pub open spec fn closes(pre: DMTransaction, post: DMTransaction) -> bool {
    &&& pre.has_active()
    &&& post.ordinal_count == pre.ordinal_count + 1
    &&& post.call_stack@ == pre.call_stack@.drop_last()
    &&& post.instrs() == pre.instrs().update(
        pre.top() - 1,
        Instruction { end_ordinal: post.ordinal_count, ..pre.active() },
    )
    &&& post.pb_transaction == (Transaction {
        instructions: post.pb_transaction.instructions,
        ..pre.pb_transaction
    })
}

#[verifier::rlimit(40)]
proof fn lemma_closed_children(pre: DMTransaction, k: int)
    requires
        pre.wf(),
        pre.has_active(),
        0 <= k < pre.instrs().len(),
        pre.instrs()[k].parent_index == pre.top(),
    ensures
        pre.instrs()[k].end_ordinal != 0,
{
    let m = pre.call_stack@.len();
    let t = pre.top();
    if pre.instrs()[k].end_ordinal == 0 {
        assert(pre.is_open(k));
        let i = choose|i: int| 1 <= i < m && pre.call_stack@[i] == k + 1;
        assert(pre.call_stack@[i - 1] == t);
        if i - 1 < m - 1 {
            assert(pre.call_stack@[i - 1] < pre.call_stack@[m - 1]);
        }
    }
}

#[verifier::rlimit(40)]
proof fn lemma_close_keeps_stack(pre: DMTransaction, post: DMTransaction)
    requires
        pre.wf(),
        closes(pre, post),
    ensures
        post.wf_stack(),
{
    let t = pre.top();
    let m = pre.call_stack@.len();
    assert(pre.call_stack@[m - 1] == t);
    assert forall|k: int| 0 <= k < post.instrs().len() implies (
    #[trigger] post.instrs()[k].end_ordinal == 0 <==> post.is_open(k)) by {
        if post.is_open(k) {
            let i = choose|i: int| 1 <= i < m - 1 && post.call_stack@[i] == k + 1;
            assert(pre.call_stack@[i] == k + 1);
            assert(pre.call_stack@[i] < pre.call_stack@[m - 1]);
        }
        if k != t - 1 && pre.is_open(k) {
            let i = choose|i: int| 1 <= i < m && pre.call_stack@[i] == k + 1;
            assert(i != m - 1);
            assert(post.call_stack@[i] == k + 1);
        }
    }
}

#[verifier::rlimit(40)]
proof fn lemma_close_keeps_tree(pre: DMTransaction, post: DMTransaction)
    requires
        pre.wf(),
        closes(pre, post),
    ensures
        post.wf_tree(),
{
    let t = pre.top();
    let m = pre.call_stack@.len();
    assert(pre.call_stack@[m - 1] == t);
    if m > 2 {
        let p = pre.call_stack@[m - 2];
        assert(pre.instrs()[t - 1].parent_index == p);
        assert(pre.is_open(p - 1));
    }
    assert forall|k: int| 0 <= k < post.instrs().len() implies {
        let p = #[trigger] post.instrs()[k].parent_index;
        p > 0 && post.instrs()[p - 1].end_ordinal != 0 ==> post.instrs()[k].end_ordinal != 0
            && post.instrs()[k].end_ordinal < post.instrs()[p - 1].end_ordinal
    } by {
        let p = post.instrs()[k].parent_index;
        if p == t {
            lemma_closed_children(pre, k);
        }
    }
}

#[verifier::rlimit(40)]
proof fn lemma_close_keeps_ordinals(pre: DMTransaction, post: DMTransaction)
    requires
        pre.wf(),
        closes(pre, post),
    ensures
        post.wf_ordinals(),
{
    let t = pre.top();
    let m = pre.call_stack@.len();
    let n = post.ordinal_count;
    assert(pre.call_stack@[m - 1] == t);
    let pre_i = pre.instrs()[t - 1];
    let post_i = post.instrs()[t - 1];
    assert(pre.is_open(t - 1));
    assert(pre_i.end_ordinal == 0);
    assert(post_i.logs == pre_i.logs);
    assert forall|o: u64| instruction_stamps(post_i, o) <==> (instruction_stamps(pre_i, o) || o == n) by {
        if exists|j: int| 0 <= j < pre_i.logs@.len() && #[trigger] pre_i.logs@[j].ordinal == o {
            let j = choose|j: int| 0 <= j < pre_i.logs@.len() && #[trigger] pre_i.logs@[j].ordinal == o;
            assert(post_i.logs@[j].ordinal == o);
        }
    }
    lemma_stamps_grow(pre, post, t - 1, n);
    assert(post.wf_ordinals());
}


/// Changing one instruction so that it stamps one more ordinal `n` adds `n`
/// to the transaction's stamps and nothing else.
#[verifier::rlimit(40)]
proof fn lemma_stamps_grow(pre: DMTransaction, post: DMTransaction, a: int, n: u64)
    requires
        0 <= a < pre.instrs().len(),
        post.instrs() == pre.instrs().update(a, post.instrs()[a]),
        forall|o: u64|
            instruction_stamps(post.instrs()[a], o) <==> (instruction_stamps(pre.instrs()[a], o)
                || o == n),
        post.pb_transaction.begin_ordinal == pre.pb_transaction.begin_ordinal,
        post.pb_transaction.logs == pre.pb_transaction.logs,
    ensures
        forall|o: u64| post.stamps(o) <==> (pre.stamps(o) || o == n),
{
    assert forall|o: u64| post.stamps(o) <==> (pre.stamps(o) || o == n) by {
        if pre.stamps(o) && o != pre.pb_transaction.begin_ordinal {
            if exists|k: int|
                0 <= k < pre.instrs().len() && #[trigger] instruction_stamps(pre.instrs()[k], o) {
                let k = choose|k: int|
                    0 <= k < pre.instrs().len() && #[trigger] instruction_stamps(
                        pre.instrs()[k],
                        o,
                    );
                assert(instruction_stamps(post.instrs()[k], o));
            }
        }
        if o == n {
            assert(instruction_stamps(post.instrs()[a], o));
        }
        if post.stamps(o) && o != n && o != post.pb_transaction.begin_ordinal {
            if exists|k: int|
                0 <= k < post.instrs().len() && #[trigger] instruction_stamps(post.instrs()[k], o) {
                let k = choose|k: int|
                    0 <= k < post.instrs().len() && #[trigger] instruction_stamps(
                        post.instrs()[k],
                        o,
                    );
                assert(instruction_stamps(pre.instrs()[k], o));
            }
        }
    }
}


/// The shape of a call of `add_instruction_log` with an active instruction.
pub open spec fn logs_to_active(pre: DMTransaction, post: DMTransaction, message: String) -> bool {
    &&& pre.has_active()
    &&& post.ordinal_count == pre.ordinal_count + 1
    &&& post.call_stack == pre.call_stack
    &&& post.instrs() == pre.instrs().update(pre.top() - 1, post.active())
    &&& post.active() == (Instruction { logs: post.active().logs, ..pre.active() })
    &&& post.active().logs@ == pre.active().logs@.push(
        Log { message, ordinal: post.ordinal_count },
    )
    &&& post.pb_transaction == (Transaction {
        instructions: post.pb_transaction.instructions,
        ..pre.pb_transaction
    })
}

/// `post` differs from `pre` only in what the active instruction carries
/// besides its span and logs: its state changes and its outcome.
pub open spec fn annotates(pre: DMTransaction, post: DMTransaction) -> bool {
    &&& pre.has_active()
    &&& post.ordinal_count == pre.ordinal_count
    &&& post.call_stack == pre.call_stack
    &&& post.instrs() == pre.instrs().update(pre.top() - 1, post.active())
    &&& post.active() == (Instruction {
        account_changes: post.active().account_changes,
        balance_changes: post.active().balance_changes,
        failed: post.active().failed,
        error: post.active().error,
        ..pre.active()
    })
    &&& post.pb_transaction == (Transaction {
        instructions: post.pb_transaction.instructions,
        ..pre.pb_transaction
    })
}

#[verifier::rlimit(40)]
proof fn lemma_log_keeps_wf(pre: DMTransaction, post: DMTransaction, message: String)
    requires
        pre.wf(),
        logs_to_active(pre, post, message),
    ensures
        post.wf(),
{
    let t = pre.top();
    let m = pre.call_stack@.len();
    let n = post.ordinal_count;
    assert(pre.call_stack@[m - 1] == t);
    assert(pre.is_open(t - 1));
    let pre_i = pre.instrs()[t - 1];
    let post_i = post.instrs()[t - 1];
    assert forall|k: int| 0 <= k < pre.instrs().len() implies {
        let a = #[trigger] pre.instrs()[k];
        let b = post.instrs()[k];
        same_span(a, b) && a.end_ordinal == b.end_ordinal
    } by {
        if k != t - 1 {
            assert(post.instrs()[k] == pre.instrs()[k]);
        }
    }
    lemma_same_spans_keep_shape(pre, post);
    assert forall|o: u64| instruction_stamps(post_i, o) <==> (instruction_stamps(pre_i, o) || o == n) by {
        if exists|j: int| 0 <= j < pre_i.logs@.len() && #[trigger] pre_i.logs@[j].ordinal == o {
            let j = choose|j: int| 0 <= j < pre_i.logs@.len() && #[trigger] pre_i.logs@[j].ordinal == o;
            assert(post_i.logs@[j].ordinal == o);
        }
        if o == n {
            assert(post_i.logs@[pre_i.logs@.len() as int].ordinal == o);
        }
        if exists|j: int| 0 <= j < post_i.logs@.len() && #[trigger] post_i.logs@[j].ordinal == o {
            let j = choose|j: int| 0 <= j < post_i.logs@.len() && #[trigger] post_i.logs@[j].ordinal == o;
            if j < pre_i.logs@.len() {
                assert(pre_i.logs@[j].ordinal == o);
            }
        }
    }
    lemma_stamps_grow(pre, post, t - 1, n);
    assert forall|k: int| 0 <= k < post.instrs().len() implies {
        let i = #[trigger] post.instrs()[k];
        forall|j: int|
            0 <= j < i.logs@.len() ==> i.begin_ordinal < #[trigger] i.logs@[j].ordinal
                <= post.ordinal_count && (i.end_ordinal == 0 || i.logs@[j].ordinal
                < i.end_ordinal)
    } by {
        if k == t - 1 {
            assert forall|j: int| 0 <= j < post_i.logs@.len() implies post_i.begin_ordinal
                < #[trigger] post_i.logs@[j].ordinal <= post.ordinal_count by {
                if j < pre_i.logs@.len() {
                    assert(post_i.logs@[j] == pre_i.logs@[j]);
                }
            }
        }
    }
    assert(post.wf_ordinals());
}

#[verifier::rlimit(40)]
proof fn lemma_top_log_keeps_wf(pre: DMTransaction, post: DMTransaction)
    requires
        pre.wf(),
        post.ordinal_count == pre.ordinal_count + 1,
        post.call_stack == pre.call_stack,
        post.pb_transaction.logs@.len() == pre.pb_transaction.logs@.len() + 1,
        post.pb_transaction.logs@.drop_last() == pre.pb_transaction.logs@,
        post.pb_transaction.logs@.last().ordinal == post.ordinal_count,
        post.pb_transaction == (Transaction {
            logs: post.pb_transaction.logs,
            ..pre.pb_transaction
        }),
    ensures
        post.wf(),
{
    let n = post.ordinal_count;
    let pl = pre.pb_transaction.logs@;
    let ql = post.pb_transaction.logs@;
    assert forall|j: int| 0 <= j < pl.len() implies ql[j] == pl[j] by {
        assert(ql[j] == ql.drop_last()[j]);
    }
    assert(post.wf_stack());
    assert(post.wf_tree());
    assert forall|o: u64| post.stamps(o) <==> (pre.stamps(o) || o == n) by {
        if exists|j: int| 0 <= j < pl.len() && #[trigger] pl[j].ordinal == o {
            let j = choose|j: int| 0 <= j < pl.len() && #[trigger] pl[j].ordinal == o;
            assert(ql[j].ordinal == o);
        }
        if o == n {
            assert(ql[pl.len() as int].ordinal == o);
        }
        if exists|j: int| 0 <= j < ql.len() && #[trigger] ql[j].ordinal == o {
            let j = choose|j: int| 0 <= j < ql.len() && #[trigger] ql[j].ordinal == o;
            if j < pl.len() {
                assert(pl[j].ordinal == o);
            }
        }
        if exists|k: int|
            0 <= k < pre.instrs().len() && #[trigger] instruction_stamps(pre.instrs()[k], o) {
            let k = choose|k: int|
                0 <= k < pre.instrs().len() && #[trigger] instruction_stamps(pre.instrs()[k], o);
            assert(instruction_stamps(post.instrs()[k], o));
        }
    }
    assert(post.wf_ordinals());
}

#[verifier::rlimit(40)]
proof fn lemma_annotate_keeps_wf(pre: DMTransaction, post: DMTransaction)
    requires
        pre.wf(),
        annotates(pre, post),
    ensures
        post.wf(),
{
    lemma_annotate_same_spans(pre, post);
    lemma_same_spans_keep_shape(pre, post);
    lemma_stamps_same(pre, post);
    assert(post.wf_ordinals());
}

/// Keeping every span, closing ordinal and the call stack keeps the stack
/// and tree invariants.
#[verifier::rlimit(40)]
proof fn lemma_same_spans_keep_shape(pre: DMTransaction, post: DMTransaction)
    requires
        pre.wf(),
        post.call_stack == pre.call_stack,
        post.instrs().len() == pre.instrs().len(),
        forall|k: int|
            0 <= k < pre.instrs().len() ==> {
                let a = #[trigger] pre.instrs()[k];
                let b = post.instrs()[k];
                &&& same_span(a, b)
                &&& a.end_ordinal == b.end_ordinal
            },
    ensures
        post.wf_stack(),
        post.wf_tree(),
{
    assert forall|k: int| 0 <= k < post.instrs().len() implies (
    #[trigger] post.instrs()[k].end_ordinal == 0 <==> post.is_open(k)) by {
        assert(pre.instrs()[k].end_ordinal == 0 <==> pre.is_open(k));
    }
    assert(post.wf_stack());
    assert forall|k: int| 0 <= k < post.instrs().len() implies {
        let p = #[trigger] post.instrs()[k].parent_index;
        let ins = post.instrs();
        &&& ins[k].index == k + 1
        &&& p < ins[k].index
        &&& p == 0 ==> ins[k].depth == 0
        &&& p > 0 ==> ins[k].depth == ins[p - 1].depth + 1
        &&& p > 0 ==> ins[p - 1].begin_ordinal < ins[k].begin_ordinal
        &&& p > 0 && ins[p - 1].end_ordinal != 0 ==> ins[k].end_ordinal != 0
            && ins[k].end_ordinal < ins[p - 1].end_ordinal
    } by {
        let p = pre.instrs()[k].parent_index;
        if p > 0 {
            assert(same_span(pre.instrs()[p - 1], post.instrs()[p - 1]));
        }
    }
}

/// Under `annotates`, every instruction keeps its span, its closing ordinal
/// and its logs.
#[verifier::rlimit(40)]
proof fn lemma_annotate_same_spans(pre: DMTransaction, post: DMTransaction)
    requires
        pre.wf(),
        annotates(pre, post),
    ensures
        post.instrs().len() == pre.instrs().len(),
        forall|k: int|
            0 <= k < pre.instrs().len() ==> {
                let a = #[trigger] pre.instrs()[k];
                let b = post.instrs()[k];
                &&& same_span(a, b)
                &&& a.end_ordinal == b.end_ordinal
                &&& a.logs == b.logs
            },
{
    let t = pre.top();
    let m = pre.call_stack@.len();
    assert(pre.call_stack@[m - 1] == t);
    assert(1 <= t <= pre.instrs().len());
}

/// Instructions that stamp the same ordinals, one for one, leave the
/// transaction's stamps as they were.
#[verifier::rlimit(40)]
proof fn lemma_stamps_same(pre: DMTransaction, post: DMTransaction)
    requires
        post.instrs().len() == pre.instrs().len(),
        forall|k: int|
            0 <= k < pre.instrs().len() ==> {
                let a = #[trigger] pre.instrs()[k];
                let b = post.instrs()[k];
                a.begin_ordinal == b.begin_ordinal && a.end_ordinal == b.end_ordinal && a.logs
                    == b.logs
            },
        post.pb_transaction.begin_ordinal == pre.pb_transaction.begin_ordinal,
        post.pb_transaction.logs == pre.pb_transaction.logs,
    ensures
        forall|o: u64| post.stamps(o) <==> pre.stamps(o),
{
    assert forall|o: u64| post.stamps(o) <==> pre.stamps(o) by {
        if exists|k: int|
            0 <= k < pre.instrs().len() && #[trigger] instruction_stamps(pre.instrs()[k], o) {
            let k = choose|k: int|
                0 <= k < pre.instrs().len() && #[trigger] instruction_stamps(pre.instrs()[k], o);
            let a = pre.instrs()[k];
            let b = post.instrs()[k];
            if exists|j: int| 0 <= j < a.logs@.len() && #[trigger] a.logs@[j].ordinal == o {
                let j = choose|j: int| 0 <= j < a.logs@.len() && #[trigger] a.logs@[j].ordinal == o;
                assert(b.logs@[j].ordinal == o);
            }
            assert(instruction_stamps(b, o));
        }
        if exists|k: int|
            0 <= k < post.instrs().len() && #[trigger] instruction_stamps(post.instrs()[k], o) {
            let k = choose|k: int|
                0 <= k < post.instrs().len() && #[trigger] instruction_stamps(post.instrs()[k], o);
            let a = pre.instrs()[k];
            let b = post.instrs()[k];
            if exists|j: int| 0 <= j < b.logs@.len() && #[trigger] b.logs@[j].ordinal == o {
                let j = choose|j: int| 0 <= j < b.logs@.len() && #[trigger] b.logs@[j].ordinal == o;
                assert(a.logs@[j].ordinal == o);
            }
            assert(instruction_stamps(a, o));
        }
    }
}

} // verus!

verus! {

/// The span tree of every trace the recorder keeps matches the nesting of
/// the calls that built it: a root span has parent 0 and depth 0; any other
/// span sits one level below its parent, opened after it and, once the parent
/// is closed, closed before it; the open spans are exactly the chain on the
/// call stack, each a child of the one below it.
pub proof fn lemma_span_tree(t: DMTransaction)
    requires
        t.wf(),
    ensures
        forall|k: int|
            0 <= k < t.instrs().len() ==> {
                let i = #[trigger] t.instrs()[k];
                let p = i.parent_index;
                &&& i.index == k + 1
                &&& (p == 0 <==> i.depth == 0)
                &&& p > 0 ==> {
                    let q = t.instrs()[p - 1];
                    &&& p < i.index
                    &&& i.depth == q.depth + 1
                    &&& q.begin_ordinal < i.begin_ordinal
                    &&& q.end_ordinal != 0 ==> i.end_ordinal != 0 && i.end_ordinal
                        < q.end_ordinal
                }
            },
        forall|k: int|
            0 <= k < t.instrs().len() ==> (#[trigger] t.instrs()[k].end_ordinal == 0
                <==> t.is_open(k)),
        forall|i: int|
            1 <= i < t.call_stack@.len() ==> t.instrs()[#[trigger] t.call_stack@[i]
                - 1].parent_index == t.call_stack@[i - 1] && t.instrs()[t.call_stack@[i]
                - 1].depth == i - 1,
{
}

/// Opening an instruction and then another, with no close between, makes
/// the second a child of the first, one level deeper.
pub proof fn lemma_nested_starts(
    t0: DMTransaction,
    t1: DMTransaction,
    t2: DMTransaction,
    outer_program: Seq<u8>,
    outer_accounts: Vec<Vec<u8>>,
    outer_data: Seq<u8>,
    inner_program: Seq<u8>,
    inner_accounts: Vec<Vec<u8>>,
    inner_data: Seq<u8>,
)
    requires
        started(t0, t1, outer_program, outer_accounts, outer_data),
        started(t1, t2, inner_program, inner_accounts, inner_data),
    ensures
        t2.instrs()[t1.instrs().len() - 1] == t1.instrs().last(),
        t2.instrs().last().parent_index == t1.instrs().last().index,
        t2.instrs().last().depth == t1.instrs().last().depth + 1,
{
    assert(t2.instrs()[t1.instrs().len() - 1] == t2.instrs().drop_last()[t1.instrs().len() - 1]);
}

/// Closing right after opening seals the span just opened, one ordinal after
/// it began, and gives back the call stack as it was before the opening.
pub proof fn lemma_start_then_end(
    t0: DMTransaction,
    t1: DMTransaction,
    t2: DMTransaction,
    program: Seq<u8>,
    accounts: Vec<Vec<u8>>,
    data: Seq<u8>,
)
    requires
        started(t0, t1, program, accounts, data),
        ended(t1, t2),
    ensures
        t2.call_stack@ == t0.call_stack@,
        t2.instrs().len() == t1.instrs().len(),
        t2.instrs().last().end_ordinal == t2.ordinal_count,
        t2.instrs().last().end_ordinal == t2.instrs().last().begin_ordinal + 1,
{
    assert(t1.top() == t1.instrs().len());
    assert(t1.call_stack@.drop_last() =~= t0.call_stack@);
}

/// The ordinals stamped in a trace are exactly 1 through the clock's value:
/// the transaction itself has 1, and every recorded event one of the others.
pub proof fn lemma_ordinals_gap_free(t: DMTransaction)
    requires
        t.wf(),
    ensures
        forall|o: u64| t.stamps(o) <==> 1 <= o <= t.ordinal_count,
{
}

/// The calls that stamp an ordinal: opening or closing an instruction, and
/// logging to the active instruction or to the transaction.
pub open spec fn ticks(pre: DMTransaction, post: DMTransaction) -> bool {
    ||| opens(pre, post)
    ||| closes(pre, post)
    ||| exists|m: String| logs_to_active(pre, post, m)
    ||| exists|m: String| top_logged(pre, post, m)
}

/// Each call that stamps an ordinal stamps the next one: above every ordinal
/// stamped before it, and the only one it adds.
pub proof fn lemma_tick_stamps_next(pre: DMTransaction, post: DMTransaction)
    requires
        pre.wf(),
        post.wf(),
        ticks(pre, post),
    ensures
        post.ordinal_count == pre.ordinal_count + 1,
        forall|o: u64| pre.stamps(o) ==> o < post.ordinal_count,
        forall|o: u64| post.stamps(o) <==> (pre.stamps(o) || o == post.ordinal_count),
{
}

/// Recording an account data change or a balance change neither moves the
/// clock nor stamps any ordinal.
pub proof fn lemma_changes_keep_clock(
    pre: DMTransaction,
    post: DMTransaction,
    pubkey: Seq<u8>,
    before_data: Seq<u8>,
    after_data: Seq<u8>,
    before_lamports: u64,
    after_lamports: u64,
)
    requires
        pre.wf(),
        post.wf(),
        account_changed(pre, post, pubkey, before_data, after_data) || lamport_changed(
            pre,
            post,
            pubkey,
            before_lamports,
            after_lamports,
        ),
    ensures
        post.ordinal_count == pre.ordinal_count,
        forall|o: u64| post.stamps(o) <==> pre.stamps(o),
{
}

/// A call of the engine that shapes the span tree.
#[derive(Clone, Copy, Debug, PartialEq, Eq, Structural)]
pub enum NestingCall {
    Start,
    End,
}

/// How many of `calls` open an instruction.
pub open spec fn starts_in(calls: Seq<NestingCall>) -> nat
    decreases calls.len(),
{
    if calls.len() == 0 {
        0
    } else {
        starts_in(calls.drop_last()) + if calls.last() == NestingCall::Start {
            1nat
        } else {
            0nat
        }
    }
}

/// Indices of the instructions that `calls` leave open, outermost first: a
/// start opens the next index, an end closes the innermost open one, if any.
pub open spec fn open_after(calls: Seq<NestingCall>) -> Seq<u64>
    decreases calls.len(),
{
    if calls.len() == 0 {
        seq![]
    } else {
        let s = open_after(calls.drop_last());
        if calls.last() == NestingCall::Start {
            s.push(starts_in(calls) as u64)
        } else if s.len() > 0 {
            s.drop_last()
        } else {
            s
        }
    }
}

/// `post` follows `pre` by `call`, whatever the opened instruction carries.
pub open spec fn steps(pre: DMTransaction, post: DMTransaction, call: NestingCall) -> bool {
    match call {
        NestingCall::Start => exists|p: Seq<u8>, a: Vec<Vec<u8>>, d: Seq<u8>|
            started(pre, post, p, a, d),
        NestingCall::End => ended(pre, post),
    }
}

/// The nesting that `calls` imply for the instruction opened by `calls[i]`:
/// its depth is the number of instructions open when it starts, and its
/// parent the innermost of them, or 0 when there is none.
pub open spec fn implied_nesting(calls: Seq<NestingCall>, i: int, span: Instruction) -> bool {
    let before = open_after(calls.take(i));
    &&& span.depth == before.len()
    &&& span.parent_index == (if before.len() == 0 {
        0
    } else {
        before.last()
    })
}

/// `t` is the state that `calls` lead to from a fresh trace, as far as
/// nesting goes.
pub open spec fn nesting_holds(t: DMTransaction, calls: Seq<NestingCall>) -> bool {
    &&& t.call_stack@ == seq![0u64] + open_after(calls)
    &&& t.instrs().len() == starts_in(calls)
    &&& forall|i: int|
        0 <= i < calls.len() && #[trigger] calls[i] == NestingCall::Start ==> starts_in(
            calls.take(i),
        ) < starts_in(calls) && implied_nesting(
            calls,
            i,
            t.instrs()[starts_in(calls.take(i)) as int],
        )
}

proof fn lemma_push_keeps_prefixes(calls: Seq<NestingCall>, c: NestingCall)
    ensures
        forall|i: int| 0 <= i <= calls.len() ==> #[trigger] calls.push(c).take(i) == calls.take(i),
        calls.push(c).drop_last() == calls,
        calls.push(c).last() == c,
{
    assert forall|i: int| 0 <= i <= calls.len() implies #[trigger] calls.push(c).take(i)
        == calls.take(i) by {
        assert(calls.push(c).take(i) =~= calls.take(i));
    }
    assert(calls.push(c).drop_last() =~= calls);
}

#[verifier::rlimit(40)]
proof fn lemma_nesting_start(
    pre: DMTransaction,
    post: DMTransaction,
    calls: Seq<NestingCall>,
    p: Seq<u8>,
    a: Vec<Vec<u8>>,
    d: Seq<u8>,
)
    requires
        pre.wf(),
        nesting_holds(pre, calls),
        started(pre, post, p, a, d),
    ensures
        nesting_holds(post, calls.push(NestingCall::Start)),
{
    let next = calls.push(NestingCall::Start);
    lemma_push_keeps_prefixes(calls, NestingCall::Start);
    let s = open_after(calls);
    let len = pre.instrs().len();
    assert(starts_in(next) == len + 1);
    assert(open_after(next) == s.push((len + 1) as u64));
    assert(seq![0u64] + s.push((len + 1) as u64) =~= (seq![0u64] + s).push((len + 1) as u64));
    assert forall|k: int| 0 <= k < len implies post.instrs()[k] == pre.instrs()[k] by {
        assert(post.instrs()[k] == post.instrs().drop_last()[k]);
    }
    if s.len() > 0 {
        assert(pre.top() == s.last());
    }
    assert(implied_nesting(next, calls.len() as int, post.instrs()[len as int]));
    assert forall|i: int|
        0 <= i < next.len() && #[trigger] next[i] == NestingCall::Start implies starts_in(
            next.take(i),
        ) < starts_in(next) && implied_nesting(
        next,
        i,
        post.instrs()[starts_in(next.take(i)) as int],
    ) by {
        assert(next.take(i) == calls.take(i));
        if i < calls.len() {
            assert(next[i] == calls[i]);
            let k = starts_in(calls.take(i)) as int;
            assert(implied_nesting(calls, i, pre.instrs()[k]));
            assert(post.instrs()[k] == pre.instrs()[k]);
        } else {
            assert(next.take(i) == calls);
        }
    }
    assert(post.call_stack@ == seq![0u64] + open_after(next));
    assert(post.instrs().len() == starts_in(next));
}

#[verifier::rlimit(40)]
proof fn lemma_nesting_end(pre: DMTransaction, post: DMTransaction, calls: Seq<NestingCall>)
    requires
        pre.wf(),
        nesting_holds(pre, calls),
        ended(pre, post),
    ensures
        nesting_holds(post, calls.push(NestingCall::End)),
{
    let next = calls.push(NestingCall::End);
    lemma_push_keeps_prefixes(calls, NestingCall::End);
    let s = open_after(calls);
    assert(starts_in(next) == starts_in(calls));
    let m = pre.call_stack@.len();
    if pre.has_active() {
        if s.len() == 0 {
            assert(pre.call_stack@ =~= seq![0u64]);
        }
        assert(open_after(next) == s.drop_last());
        assert(seq![0u64] + s.drop_last() =~= (seq![0u64] + s).drop_last());
        assert(pre.call_stack@[m - 1] == pre.top());
        assert(1 <= pre.top() <= pre.instrs().len());
        assert forall|k: int| 0 <= k < pre.instrs().len() implies {
            &&& post.instrs()[k].depth == pre.instrs()[k].depth
            &&& post.instrs()[k].parent_index == pre.instrs()[k].parent_index
        } by {}
    } else {
        if s.len() > 0 {
            assert((seq![0u64] + s)[s.len() as int] == s.last());
            assert(pre.call_stack@[m - 1] >= 1);
        }
        assert(open_after(next) == s);
    }
    assert forall|i: int|
        0 <= i < next.len() && #[trigger] next[i] == NestingCall::Start implies starts_in(
            next.take(i),
        ) < starts_in(next) && implied_nesting(
        next,
        i,
        post.instrs()[starts_in(next.take(i)) as int],
    ) by {
        assert(i < calls.len());
        assert(next[i] == calls[i]);
        assert(next.take(i) == calls.take(i));
        let k = starts_in(calls.take(i)) as int;
        assert(implied_nesting(calls, i, pre.instrs()[k]));
        assert(post.instrs()[k].depth == pre.instrs()[k].depth);
        assert(post.instrs()[k].parent_index == pre.instrs()[k].parent_index);
    }
}

proof fn lemma_nesting_prefix(states: Seq<DMTransaction>, calls: Seq<NestingCall>, n: int)
    requires
        states.len() == calls.len() + 1,
        forall|i: int| 0 <= i < states.len() ==> (#[trigger] states[i]).wf(),
        states[0].instrs().len() == 0,
        states[0].call_stack@ == seq![0u64],
        forall|i: int| 0 <= i < calls.len() ==> steps(#[trigger] states[i], states[i + 1], calls[i]),
        0 <= n <= calls.len(),
    ensures
        nesting_holds(states[n], calls.take(n)),
    decreases n,
{
    if n == 0 {
        assert(calls.take(0) =~= seq![]);
        assert(seq![0u64] + open_after(calls.take(0)) =~= seq![0u64]);
    } else {
        let m = n - 1;
        lemma_nesting_prefix(states, calls, m);
        assert(calls.take(n) =~= calls.take(m).push(calls[m]));
        assert(steps(states[m], states[m + 1], calls[m]));
        if calls[m] == NestingCall::Start {
            let (p, a, d) = choose|p: Seq<u8>, a: Vec<Vec<u8>>, d: Seq<u8>|
                started(states[m], states[n], p, a, d);
            lemma_nesting_start(states[m], states[n], calls.take(m), p, a, d);
        } else {
            lemma_nesting_end(states[m], states[n], calls.take(m));
        }
    }
}

/// For every sequence of instruction opens and closes applied to a fresh
/// trace, the call stack holds exactly the instructions the sequence leaves
/// open, and each instruction it opened records as depth the number of
/// instructions open when it started and as parent the innermost of them
/// (0 when there is none). A close with nothing open changes nothing.
pub proof fn lemma_nesting_follows_calls(states: Seq<DMTransaction>, calls: Seq<NestingCall>)
    requires
        states.len() == calls.len() + 1,
        forall|i: int| 0 <= i < states.len() ==> (#[trigger] states[i]).wf(),
        states[0].instrs().len() == 0,
        states[0].call_stack@ == seq![0u64],
        forall|i: int| 0 <= i < calls.len() ==> steps(#[trigger] states[i], states[i + 1], calls[i]),
    ensures
        states.last().call_stack@ == seq![0u64] + open_after(calls),
        states.last().instrs().len() == starts_in(calls),
        forall|i: int|
            0 <= i < calls.len() && calls[i] == NestingCall::Start ==> implied_nesting(
                calls,
                i,
                #[trigger] states.last().instrs()[starts_in(calls.take(i)) as int],
            ),
{
    lemma_nesting_prefix(states, calls, calls.len() as int);
    assert(calls.take(calls.len() as int) =~= calls);
    assert(states.last() == states[calls.len() as int]);
}

proof fn lemma_ticks_prefix(states: Seq<DMTransaction>, n: int)
    requires
        forall|i: int| 0 <= i < states.len() ==> (#[trigger] states[i]).wf(),
        forall|i: int| 0 <= i < states.len() - 1 ==> ticks(#[trigger] states[i], states[i + 1]),
        0 <= n < states.len(),
    ensures
        states[n].ordinal_count == states[0].ordinal_count + n,
        forall|o: u64|
            states[n].stamps(o) <==> (states[0].stamps(o) || (states[0].ordinal_count < o
                <= states[n].ordinal_count)),
    decreases n,
{
    if n > 0 {
        lemma_ticks_prefix(states, n - 1);
        assert(ticks(states[n - 1], states[n]));
        lemma_tick_stamps_next(states[n - 1], states[n]);
    }
}

/// Over any run of calls that stamp ordinals, in call order, the `i`-th
/// call stamps the clock's starting value plus `i + 1`: each stamp is above
/// every earlier one, and the run adds exactly the ordinals from the
/// starting value (excluded) to the final one, with no gap.
pub proof fn lemma_ticks_in_call_order(states: Seq<DMTransaction>)
    requires
        states.len() >= 1,
        forall|i: int| 0 <= i < states.len() ==> (#[trigger] states[i]).wf(),
        forall|i: int| 0 <= i < states.len() - 1 ==> ticks(#[trigger] states[i], states[i + 1]),
    ensures
        forall|i: int|
            0 <= i < states.len() ==> (#[trigger] states[i]).ordinal_count
                == states[0].ordinal_count + i,
        forall|i: int, o: u64|
            0 <= i < states.len() - 1 && #[trigger] states[i].stamps(o) ==> o < states[i
                + 1].ordinal_count,
        forall|o: u64|
            states.last().stamps(o) <==> (states[0].stamps(o) || (states[0].ordinal_count < o
                <= states.last().ordinal_count)),
{
    assert forall|i: int| 0 <= i < states.len() implies (#[trigger] states[i]).ordinal_count
        == states[0].ordinal_count + i by {
        lemma_ticks_prefix(states, i);
    }
    assert forall|i: int, o: u64|
        0 <= i < states.len() - 1 && #[trigger] states[i].stamps(o) implies o < states[i
        + 1].ordinal_count by {
        assert(ticks(states[i], states[i + 1]));
        lemma_tick_stamps_next(states[i], states[i + 1]);
    }
    lemma_ticks_prefix(states, states.len() - 1);
}

} // verus!
