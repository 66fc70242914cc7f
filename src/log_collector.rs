//! Size-bounded log of one instruction execution context.
use crate::deepmind::{on_last, DMBatchContext};
use crate::trace::{logged, DMTransaction};
use vstd::prelude::*;
use vstd::utf8::encode_utf8;

verus! {

/// Default budget of the bounded view, in bytes of message content.
pub const LOG_MESSAGES_BYTES_LIMIT: usize = 10 * 1000;

/// What a collector holds, as values.
pub struct CollectorView {
    /// The bounded view: messages within the budget, then the sentinel.
    pub messages: Seq<Seq<char>>,
    pub bytes_written: nat,
    pub truncated: bool,
    pub limit: nat,
    /// The unbounded view: every message logged since it was last cleared.
    pub all_messages: Seq<Seq<char>>,
}

/// Size in bytes of a message.
pub open spec fn byte_len(message: Seq<char>) -> nat {
    encode_utf8(message).len()
}

impl CollectorView {
    /// An empty collector with the given budget.
    pub open spec fn empty(limit: nat) -> CollectorView {
        CollectorView {
            messages: seq![],
            bytes_written: 0,
            truncated: false,
            limit,
            all_messages: seq![],
        }
    }

    /// Effect of logging `message`.
    pub open spec fn log(self, message: Seq<char>) -> CollectorView {
        let all_messages = self.all_messages.push(message);
        if self.truncated {
            CollectorView { all_messages, ..self }
        } else if self.bytes_written + byte_len(message) >= self.limit {
            CollectorView {
                messages: self.messages.push("Log truncated"@),
                truncated: true,
                all_messages,
                ..self
            }
        } else {
            CollectorView {
                messages: self.messages.push(message),
                bytes_written: self.bytes_written + byte_len(message),
                all_messages,
                ..self
            }
        }
    }

    /// Effect of logging each of `messages`, in order.
    pub open spec fn log_all(self, messages: Seq<Seq<char>>) -> CollectorView
        decreases messages.len(),
    {
        if messages.len() == 0 {
            self
        } else {
            self.log_all(messages.drop_last()).log(messages.last())
        }
    }
}

/// Log lines emitted while one instruction executes, bounded by a byte budget.
#[derive(Debug)]
pub struct LogCollector {
    messages: Vec<String>,
    bytes_written: usize,
    limit_warning: bool,
    limit: usize,
    all_messages: Vec<String>,
}

impl View for LogCollector {
    type V = CollectorView;

    closed spec fn view(&self) -> CollectorView {
        CollectorView {
            messages: self.messages@.map_values(|m: String| m@),
            bytes_written: self.bytes_written as nat,
            truncated: self.limit_warning,
            limit: self.limit as nat,
            all_messages: self.all_messages@.map_values(|m: String| m@),
        }
    }
}

impl LogCollector {
    /// An empty collector with the default budget.
    pub fn new() -> (r: LogCollector)
        ensures
            r@ == CollectorView::empty(LOG_MESSAGES_BYTES_LIMIT as nat),
    {
        Self::with_limit(LOG_MESSAGES_BYTES_LIMIT)
    }

    /// An empty collector with a budget of `limit` bytes.
    pub fn with_limit(limit: usize) -> (r: LogCollector)
        ensures
            r@ == CollectorView::empty(limit as nat),
    {
        let r = LogCollector {
            messages: Vec::new(),
            bytes_written: 0,
            limit_warning: false,
            limit,
            all_messages: Vec::new(),
        };
        assert(r@.messages =~= seq![]);
        assert(r@.all_messages =~= seq![]);
        r
    }

    /// Logs `message`: into the unbounded view always, into the bounded view
    /// while it fits the budget; the first message that does not fit is
    /// replaced by the sentinel `"Log truncated"`, and later ones are dropped.
    pub fn log(&mut self, message: &str)
        ensures
            final(self)@ == old(self)@.log(message@),
    {
        let ghost pre = self@;
        let ghost pre_messages = self.messages@;
        let len = message.as_bytes().len();
        assert(len == byte_len(message@));
        self.all_messages.push(message.to_owned());
        if self.limit_warning {
            assert(self.messages@ == pre_messages);
        } else if len >= self.limit || self.bytes_written >= self.limit - len {
            self.limit_warning = true;
            let sentinel = String::from_str("Log truncated");
            self.messages.push(sentinel);
            assert(self.messages@.map_values(|m: String| m@) =~= pre.messages.push("Log truncated"@));
        } else {
            self.bytes_written = self.bytes_written + len;
            self.messages.push(message.to_owned());
            assert(self.messages@.map_values(|m: String| m@) =~= pre.messages.push(message@));
        }
        proof {
            assert(self@.all_messages =~= pre.all_messages.push(message@));
        }
    }

    /// Logs `message` as `log` does, and mirrors it into the active
    /// instruction of the transaction that `trace` is recording.
    pub fn log_traced(&mut self, message: &str, trace: &mut DMBatchContext)
        requires
            old(trace).wf(),
            old(trace).can_tick(),
        ensures
            final(self)@ == old(self)@.log(message@),
            final(trace).wf(),
            on_last(
                *old(trace),
                *final(trace),
                |a: DMTransaction, b: DMTransaction| exists|s: String| s@ == message@ && logged(a, b, s),
            ),
    {
        let line = message.to_owned();
        let ghost s = line;
        trace.add_instruction_log(line);
        self.log(message);
    }

    /// The unbounded view, in order.
    pub fn all_messages(&self) -> (r: &Vec<String>)
        ensures
            r@.map_values(|m: String| m@) == self@.all_messages,
    {
        &self.all_messages
    }

    /// Empties the unbounded view; the bounded view is kept.
    pub fn clear_all_messages(&mut self)
        ensures
            final(self)@ == (CollectorView { all_messages: seq![], ..old(self)@ }),
    {
        self.all_messages.clear();
        assert(self@.all_messages =~= seq![]);
    }

    /// The bounded view, in order, including the sentinel if it was reached.
    pub fn into_messages(self) -> (r: Vec<String>)
        ensures
            r@.map_values(|m: String| m@) == self@.messages,
    {
        self.messages
    }
}

impl Default for LogCollector {
    fn default() -> (r: LogCollector)
        ensures
            r@ == CollectorView::empty(LOG_MESSAGES_BYTES_LIMIT as nat),
    {
        LogCollector::new()
    }
}

impl From<LogCollector> for Vec<String> {
    fn from(log_collector: LogCollector) -> (r: Vec<String>)
        ensures
            r@.map_values(|m: String| m@) == log_collector@.messages,
    {
        log_collector.messages
    }
}

impl vstd::std_specs::convert::FromSpecImpl<LogCollector> for Vec<String> {
    open spec fn obeys_from_spec() -> bool {
        true
    }

    closed spec fn from_spec(v: LogCollector) -> Vec<String> {
        v.messages
    }
}

/// The state after logging the first `k` of `messages`, each one byte long,
/// into an empty collector with a budget of `limit` bytes.
proof fn lemma_single_byte_prefix(limit: nat, messages: Seq<Seq<char>>, k: int)
    requires
        limit >= 1,
        0 <= k <= messages.len(),
        forall|i: int| 0 <= i < messages.len() ==> byte_len(#[trigger] messages[i]) == 1,
    ensures
        ({
            let v = CollectorView::empty(limit).log_all(messages.take(k));
            &&& v.limit == limit
            &&& k < limit ==> v.messages == messages.take(k) && v.bytes_written == k && !v.truncated
            &&& k >= limit ==> v.messages == messages.take(limit - 1).push("Log truncated"@)
                && v.truncated
        }),
    decreases k,
{
    if k == 0 {
        assert(messages.take(0) =~= seq![]);
    } else {
        lemma_single_byte_prefix(limit, messages, k - 1);
        let prefix = messages.take(k);
        assert(prefix.drop_last() =~= messages.take(k - 1));
        assert(prefix.last() == messages[k - 1]);
        if k < limit {
            assert(messages.take(k - 1).push(messages[k - 1]) =~= messages.take(k));
        }
    }
}

/// With a budget of `limit` bytes, logging more than `limit` messages of one
/// byte each leaves exactly `limit` entries in the bounded view: the first
/// `limit - 1` messages, then the sentinel `"Log truncated"`.
pub proof fn lemma_single_byte_truncation(limit: nat, messages: Seq<Seq<char>>)
    requires
        limit >= 1,
        messages.len() > limit,
        forall|i: int| 0 <= i < messages.len() ==> byte_len(#[trigger] messages[i]) == 1,
    ensures
        CollectorView::empty(limit).log_all(messages).messages == messages.take(limit - 1).push(
            "Log truncated"@,
        ),
        CollectorView::empty(limit).log_all(messages).messages.len() == limit,
{
    lemma_single_byte_prefix(limit, messages, messages.len() as int);
    assert(messages.take(messages.len() as int) =~= messages);
}

} // verus!
