//! Protobuf encoding of a batch: the bytes of a batch file.
//!
//! Field numbers, per message:
//! - `Batch`: 1 transactions.
//! - `Transaction`: 1 id, 2 additional_signatures, 3 header, 4 account_keys,
//!   5 recent_blockhash, 6 instructions, 7 failed, 8 error, 9 begin_ordinal,
//!   10 end_ordinal, 11 logs.
//! - `MessageHeader`: 1 num_required_signatures, 2 num_readonly_signed_accounts,
//!   3 num_readonly_unsigned_accounts.
//! - `Instruction`: 1 program_id, 2 account_keys, 3 data, 4 index,
//!   5 parent_index, 6 depth, 7 balance_changes, 8 account_changes, 9 logs,
//!   10 begin_ordinal, 11 end_ordinal, 12 failed, 13 error.
//! - `Log`: 1 message, 2 ordinal.
//! - `AccountChange`: 1 pubkey, 2 prev_data, 3 new_data, 4 new_data_length.
//! - `BalanceChange`: 1 pubkey, 2 prev_lamports, 3 new_lamports.
//! - `ErrorSummary`: 1 error.
//!
//! As in proto3, a scalar field equal to its default (0, `false`, empty) is
//! left out; every element of a repeated field and every present optional
//! message is written.
use crate::codec::{
    AccountChange, BalanceChange, Batch, ErrorSummary, Instruction, Log, MessageHeader, Transaction,
};
use vstd::prelude::*;
use vstd::utf8::encode_utf8;

verus! {

/// Base-128 varint: seven bits per byte, least significant group first, the
/// high bit set on every byte but the last.
pub open spec fn varint(v: nat) -> Seq<u8>
    decreases v,
{
    if v < 128 {
        seq![v as u8]
    } else {
        seq![(v % 128 + 128) as u8] + varint(v / 128)
    }
}

/// Key of a field: its number and wire type (0 varint, 2 length-delimited).
pub open spec fn key(field: nat, wire_type: nat) -> Seq<u8> {
    varint(field * 8 + wire_type)
}

pub open spec fn uint_field(field: nat, v: nat) -> Seq<u8> {
    if v == 0 {
        seq![]
    } else {
        key(field, 0) + varint(v)
    }
}

pub open spec fn bool_field(field: nat, b: bool) -> Seq<u8> {
    if b {
        key(field, 0) + seq![1u8]
    } else {
        seq![]
    }
}

/// A length-delimited field, written whatever its length.
pub open spec fn len_field(field: nat, payload: Seq<u8>) -> Seq<u8> {
    key(field, 2) + varint(payload.len()) + payload
}

pub open spec fn bytes_field(field: nat, b: Seq<u8>) -> Seq<u8> {
    if b.len() == 0 {
        seq![]
    } else {
        len_field(field, b)
    }
}

pub open spec fn string_field(field: nat, s: Seq<char>) -> Seq<u8> {
    bytes_field(field, encode_utf8(s))
}

/// A repeated length-delimited field: one entry per item, in order.
pub open spec fn repeated<T>(field: nat, items: Seq<T>, enc: spec_fn(T) -> Seq<u8>) -> Seq<u8>
    decreases items.len(),
{
    if items.len() == 0 {
        seq![]
    } else {
        repeated(field, items.drop_last(), enc) + len_field(field, enc(items.last()))
    }
}

pub open spec fn optional<T>(field: nat, item: Option<T>, enc: spec_fn(T) -> Seq<u8>) -> Seq<u8> {
    match item {
        Some(x) => len_field(field, enc(x)),
        None => seq![],
    }
}

pub open spec fn raw(v: Vec<u8>) -> Seq<u8> {
    v@
}

pub open spec fn log_bytes(l: Log) -> Seq<u8> {
    string_field(1, l.message@) + uint_field(2, l.ordinal as nat)
}

pub open spec fn account_change_bytes(c: AccountChange) -> Seq<u8> {
    bytes_field(1, c.pubkey@) + bytes_field(2, c.prev_data@) + bytes_field(3, c.new_data@)
        + uint_field(4, c.new_data_length as nat)
}

pub open spec fn balance_change_bytes(c: BalanceChange) -> Seq<u8> {
    bytes_field(1, c.pubkey@) + uint_field(2, c.prev_lamports as nat) + uint_field(
        3,
        c.new_lamports as nat,
    )
}

pub open spec fn error_bytes(e: ErrorSummary) -> Seq<u8> {
    string_field(1, e.error@)
}

pub open spec fn header_bytes(h: MessageHeader) -> Seq<u8> {
    uint_field(1, h.num_required_signatures as nat) + uint_field(
        2,
        h.num_readonly_signed_accounts as nat,
    ) + uint_field(3, h.num_readonly_unsigned_accounts as nat)
}

#[verifier::opaque]
pub open spec fn instruction_bytes(i: Instruction) -> Seq<u8> {
    bytes_field(1, i.program_id@) + repeated(2, i.account_keys@, |k: Vec<u8>| raw(k))
        + bytes_field(3, i.data@) + uint_field(4, i.index as nat) + uint_field(
        5,
        i.parent_index as nat,
    ) + uint_field(6, i.depth as nat) + repeated(
        7,
        i.balance_changes@,
        |c: BalanceChange| balance_change_bytes(c),
    ) + repeated(8, i.account_changes@, |c: AccountChange| account_change_bytes(c)) + repeated(
        9,
        i.logs@,
        |l: Log| log_bytes(l),
    ) + uint_field(10, i.begin_ordinal as nat) + uint_field(11, i.end_ordinal as nat)
        + bool_field(12, i.failed) + optional(13, i.error, |e: ErrorSummary| error_bytes(e))
}

#[verifier::opaque]
pub open spec fn transaction_bytes(t: Transaction) -> Seq<u8> {
    bytes_field(1, t.id@) + repeated(2, t.additional_signatures@, |k: Vec<u8>| raw(k))
        + optional(3, t.header, |h: MessageHeader| header_bytes(h)) + repeated(
        4,
        t.account_keys@,
        |k: Vec<u8>| raw(k),
    ) + bytes_field(5, t.recent_blockhash@) + repeated(
        6,
        t.instructions@,
        |i: Instruction| instruction_bytes(i),
    ) + bool_field(7, t.failed) + optional(8, t.error, |e: ErrorSummary| error_bytes(e))
        + uint_field(9, t.begin_ordinal as nat) + uint_field(10, t.end_ordinal as nat) + repeated(
        11,
        t.logs@,
        |l: Log| log_bytes(l),
    )
}

/// The bytes of a batch file holding `transactions`.
pub open spec fn batch_bytes(transactions: Seq<Transaction>) -> Seq<u8> {
    repeated(1, transactions, |t: Transaction| transaction_bytes(t))
}

/// Relies on `prost::encoding::encode_varint`: appends the base-128 varint
/// form of `value` to the buffer.
#[verifier::external_body]
fn put_varint(buf: &mut Vec<u8>, value: u64)
    ensures
        final(buf)@ == old(buf)@ + varint(value as nat),
{
    prost::encoding::encode_varint(value, buf)
}

fn put_key(buf: &mut Vec<u8>, field: u64, wire_type: u64)
    requires
        1 <= field <= 15,
        wire_type <= 7,
    ensures
        final(buf)@ == old(buf)@ + key(field as nat, wire_type as nat),
{
    put_varint(buf, field * 8 + wire_type);
}

fn put_uint(buf: &mut Vec<u8>, field: u64, v: u64)
    requires
        1 <= field <= 15,
    ensures
        final(buf)@ == old(buf)@ + uint_field(field as nat, v as nat),
{
    if v != 0 {
        put_key(buf, field, 0);
        put_varint(buf, v);
        assert(buf@ =~= old(buf)@ + uint_field(field as nat, v as nat));
    } else {
        assert(buf@ =~= old(buf)@ + uint_field(field as nat, v as nat));
    }
}

fn put_bool(buf: &mut Vec<u8>, field: u64, b: bool)
    requires
        1 <= field <= 15,
    ensures
        final(buf)@ == old(buf)@ + bool_field(field as nat, b),
{
    if b {
        put_key(buf, field, 0);
        buf.push(1u8);
        assert(buf@ =~= old(buf)@ + bool_field(field as nat, b));
    } else {
        assert(buf@ =~= old(buf)@ + bool_field(field as nat, b));
    }
}

fn put_len_field(buf: &mut Vec<u8>, field: u64, payload: &[u8])
    requires
        1 <= field <= 15,
    ensures
        final(buf)@ == old(buf)@ + len_field(field as nat, payload@),
{
    put_key(buf, field, 2);
    put_varint(buf, payload.len() as u64);
    let mut copy = vstd::slice::slice_to_vec(payload);
    buf.append(&mut copy);
    assert(buf@ =~= old(buf)@ + len_field(field as nat, payload@));
}

fn put_bytes(buf: &mut Vec<u8>, field: u64, b: &[u8])
    requires
        1 <= field <= 15,
    ensures
        final(buf)@ == old(buf)@ + bytes_field(field as nat, b@),
{
    if b.len() != 0 {
        put_len_field(buf, field, b);
    } else {
        assert(buf@ =~= old(buf)@ + bytes_field(field as nat, b@));
    }
}

fn put_string(buf: &mut Vec<u8>, field: u64, s: &String)
    requires
        1 <= field <= 15,
    ensures
        final(buf)@ == old(buf)@ + string_field(field as nat, s@),
{
    put_bytes(buf, field, s.as_str().as_bytes());
}

fn put_repeated_bytes(buf: &mut Vec<u8>, field: u64, items: &Vec<Vec<u8>>)
    requires
        1 <= field <= 15,
    ensures
        final(buf)@ == old(buf)@ + repeated(field as nat, items@, |k: Vec<u8>| raw(k)),
{
    let mut i: usize = 0;
    while i < items.len()
        invariant
            1 <= field <= 15,
            i <= items@.len(),
            buf@ == old(buf)@ + repeated(field as nat, items@.take(i as int), |k: Vec<u8>| raw(k)),
        decreases items@.len() - i,
    {
        let ghost before = buf@;
        put_len_field(buf, field, items[i].as_slice());
        proof {
            let next = items@.take(i + 1);
            assert(next.drop_last() =~= items@.take(i as int));
            assert(i < items@.len());
            assert(next.len() == i + 1);
            assert(next[i as int] == items@.subrange(0, i + 1)[i as int]);
            assert(repeated(field as nat, next, |k: Vec<u8>| raw(k)) == repeated(field as nat, items@.take(i as int), |k: Vec<u8>| raw(k))
                + len_field(field as nat, items@[i as int]@));
            assert(buf@ =~= old(buf)@ + repeated(field as nat, next, |k: Vec<u8>| raw(k)));
        }
        i = i + 1;
    }
    assert(items@.take(i as int) =~= items@);
}


fn put_error(buf: &mut Vec<u8>, field: u64, e: &Option<ErrorSummary>)
    requires
        1 <= field <= 15,
    ensures
        final(buf)@ == old(buf)@ + optional(field as nat, *e, |x: ErrorSummary| error_bytes(x)),
{
    match e {
        Some(x) => {
            let payload = encode_error(x);
            put_len_field(buf, field, payload.as_slice());
        },
        None => {
            assert(buf@ =~= old(buf)@ + optional(field as nat, *e, |x: ErrorSummary| error_bytes(x)));
        },
    }
}

fn encode_error(e: &ErrorSummary) -> (r: Vec<u8>)
    ensures
        r@ == error_bytes(*e),
{
    let mut buf: Vec<u8> = Vec::new();
    put_string(&mut buf, 1, &e.error);
    assert(buf@ =~= error_bytes(*e));
    buf
}

fn encode_log(l: &Log) -> (r: Vec<u8>)
    ensures
        r@ == log_bytes(*l),
{
    let mut buf: Vec<u8> = Vec::new();
    put_string(&mut buf, 1, &l.message);
    put_uint(&mut buf, 2, l.ordinal);
    assert(buf@ =~= log_bytes(*l));
    buf
}

fn encode_account_change(c: &AccountChange) -> (r: Vec<u8>)
    ensures
        r@ == account_change_bytes(*c),
{
    let mut buf: Vec<u8> = Vec::new();
    put_bytes(&mut buf, 1, c.pubkey.as_slice());
    put_bytes(&mut buf, 2, c.prev_data.as_slice());
    put_bytes(&mut buf, 3, c.new_data.as_slice());
    put_uint(&mut buf, 4, c.new_data_length);
    assert(buf@ =~= account_change_bytes(*c));
    buf
}

fn encode_balance_change(c: &BalanceChange) -> (r: Vec<u8>)
    ensures
        r@ == balance_change_bytes(*c),
{
    let mut buf: Vec<u8> = Vec::new();
    put_bytes(&mut buf, 1, c.pubkey.as_slice());
    put_uint(&mut buf, 2, c.prev_lamports);
    put_uint(&mut buf, 3, c.new_lamports);
    assert(buf@ =~= balance_change_bytes(*c));
    buf
}

fn put_header(buf: &mut Vec<u8>, field: u64, h: &Option<MessageHeader>)
    requires
        1 <= field <= 15,
    ensures
        final(buf)@ == old(buf)@ + optional(field as nat, *h, |x: MessageHeader| header_bytes(x)),
{
    match h {
        Some(x) => {
            let mut payload: Vec<u8> = Vec::new();
            put_uint(&mut payload, 1, x.num_required_signatures as u64);
            put_uint(&mut payload, 2, x.num_readonly_signed_accounts as u64);
            put_uint(&mut payload, 3, x.num_readonly_unsigned_accounts as u64);
            assert(payload@ =~= header_bytes(*x));
            put_len_field(buf, field, payload.as_slice());
        },
        None => {
            assert(buf@ =~= old(buf)@ + optional(field as nat, *h, |x: MessageHeader| header_bytes(x)));
        },
    }
}

/// The protobuf encoding of one instruction record.
pub fn encode_instruction(i: &Instruction) -> (r: Vec<u8>)
    ensures
        r@ == instruction_bytes(*i),
{
    let mut buf: Vec<u8> = Vec::new();
    put_bytes(&mut buf, 1, i.program_id.as_slice());
    put_repeated_bytes(&mut buf, 2, &i.account_keys);
    put_bytes(&mut buf, 3, i.data.as_slice());
    put_uint(&mut buf, 4, i.index);
    put_uint(&mut buf, 5, i.parent_index);
    put_uint(&mut buf, 6, i.depth);
    put_balance_changes(&mut buf, 7, &i.balance_changes);
    put_account_changes(&mut buf, 8, &i.account_changes);
    put_logs(&mut buf, 9, &i.logs);
    put_uint(&mut buf, 10, i.begin_ordinal);
    put_uint(&mut buf, 11, i.end_ordinal);
    put_bool(&mut buf, 12, i.failed);
    put_error(&mut buf, 13, &i.error);
    reveal(instruction_bytes);
    assert(buf@ =~= instruction_bytes(*i));
    buf
}

/// The protobuf encoding of one transaction record.
pub fn encode_transaction(t: &Transaction) -> (r: Vec<u8>)
    ensures
        r@ == transaction_bytes(*t),
{
    let mut buf: Vec<u8> = Vec::new();
    put_bytes(&mut buf, 1, t.id.as_slice());
    put_repeated_bytes(&mut buf, 2, &t.additional_signatures);
    put_header(&mut buf, 3, &t.header);
    put_repeated_bytes(&mut buf, 4, &t.account_keys);
    put_bytes(&mut buf, 5, t.recent_blockhash.as_slice());
    put_instructions(&mut buf, 6, &t.instructions);
    put_bool(&mut buf, 7, t.failed);
    put_error(&mut buf, 8, &t.error);
    put_uint(&mut buf, 9, t.begin_ordinal);
    put_uint(&mut buf, 10, t.end_ordinal);
    put_logs(&mut buf, 11, &t.logs);
    reveal(transaction_bytes);
    assert(buf@ =~= transaction_bytes(*t));
    buf
}

/// The protobuf encoding of a batch holding `transactions`, in order.
pub fn encode_batch(batch: &Batch) -> (r: Vec<u8>)
    ensures
        r@ == batch_bytes(batch.transactions@),
{
    let mut buf: Vec<u8> = Vec::new();
    put_transactions(&mut buf, 1, &batch.transactions);
    assert(buf@ =~= batch_bytes(batch.transactions@));
    buf
}

fn put_logs(buf: &mut Vec<u8>, field: u64, items: &Vec<Log>)
    requires
        1 <= field <= 15,
    ensures
        final(buf)@ == old(buf)@ + repeated(field as nat, items@, |x: Log| log_bytes(x)),
{
    let mut i: usize = 0;
    while i < items.len()
        invariant
            1 <= field <= 15,
            i <= items@.len(),
            buf@ == old(buf)@ + repeated(field as nat, items@.take(i as int), |x: Log| log_bytes(x)),
        decreases items@.len() - i,
    {
        let payload = encode_log(&items[i]);
        put_len_field(buf, field, payload.as_slice());
        proof {
            let next = items@.take(i + 1);
            assert(next.drop_last() =~= items@.take(i as int));
            assert(next.len() == i + 1);
            assert(next[i as int] == items@.subrange(0, i + 1)[i as int]);
            assert(buf@ =~= old(buf)@ + repeated(field as nat, next, |x: Log| log_bytes(x)));
        }
        i = i + 1;
    }
    assert(items@.take(i as int) =~= items@);
}

fn put_account_changes(buf: &mut Vec<u8>, field: u64, items: &Vec<AccountChange>)
    requires
        1 <= field <= 15,
    ensures
        final(buf)@ == old(buf)@ + repeated(field as nat, items@, |x: AccountChange| account_change_bytes(x)),
{
    let mut i: usize = 0;
    while i < items.len()
        invariant
            1 <= field <= 15,
            i <= items@.len(),
            buf@ == old(buf)@ + repeated(field as nat, items@.take(i as int), |x: AccountChange| account_change_bytes(x)),
        decreases items@.len() - i,
    {
        let payload = encode_account_change(&items[i]);
        put_len_field(buf, field, payload.as_slice());
        proof {
            let next = items@.take(i + 1);
            assert(next.drop_last() =~= items@.take(i as int));
            assert(next.len() == i + 1);
            assert(next[i as int] == items@.subrange(0, i + 1)[i as int]);
            assert(buf@ =~= old(buf)@ + repeated(field as nat, next, |x: AccountChange| account_change_bytes(x)));
        }
        i = i + 1;
    }
    assert(items@.take(i as int) =~= items@);
}

fn put_balance_changes(buf: &mut Vec<u8>, field: u64, items: &Vec<BalanceChange>)
    requires
        1 <= field <= 15,
    ensures
        final(buf)@ == old(buf)@ + repeated(field as nat, items@, |x: BalanceChange| balance_change_bytes(x)),
{
    let mut i: usize = 0;
    while i < items.len()
        invariant
            1 <= field <= 15,
            i <= items@.len(),
            buf@ == old(buf)@ + repeated(field as nat, items@.take(i as int), |x: BalanceChange| balance_change_bytes(x)),
        decreases items@.len() - i,
    {
        let payload = encode_balance_change(&items[i]);
        put_len_field(buf, field, payload.as_slice());
        proof {
            let next = items@.take(i + 1);
            assert(next.drop_last() =~= items@.take(i as int));
            assert(next.len() == i + 1);
            assert(next[i as int] == items@.subrange(0, i + 1)[i as int]);
            assert(buf@ =~= old(buf)@ + repeated(field as nat, next, |x: BalanceChange| balance_change_bytes(x)));
        }
        i = i + 1;
    }
    assert(items@.take(i as int) =~= items@);
}

fn put_instructions(buf: &mut Vec<u8>, field: u64, items: &Vec<Instruction>)
    requires
        1 <= field <= 15,
    ensures
        final(buf)@ == old(buf)@ + repeated(field as nat, items@, |x: Instruction| instruction_bytes(x)),
{
    let mut i: usize = 0;
    while i < items.len()
        invariant
            1 <= field <= 15,
            i <= items@.len(),
            buf@ == old(buf)@ + repeated(field as nat, items@.take(i as int), |x: Instruction| instruction_bytes(x)),
        decreases items@.len() - i,
    {
        let payload = encode_instruction(&items[i]);
        put_len_field(buf, field, payload.as_slice());
        proof {
            let next = items@.take(i + 1);
            assert(next.drop_last() =~= items@.take(i as int));
            assert(next.len() == i + 1);
            assert(next[i as int] == items@.subrange(0, i + 1)[i as int]);
            assert(buf@ =~= old(buf)@ + repeated(field as nat, next, |x: Instruction| instruction_bytes(x)));
        }
        i = i + 1;
    }
    assert(items@.take(i as int) =~= items@);
}

fn put_transactions(buf: &mut Vec<u8>, field: u64, items: &Vec<Transaction>)
    requires
        1 <= field <= 15,
    ensures
        final(buf)@ == old(buf)@ + repeated(field as nat, items@, |x: Transaction| transaction_bytes(x)),
{
    let mut i: usize = 0;
    while i < items.len()
        invariant
            1 <= field <= 15,
            i <= items@.len(),
            buf@ == old(buf)@ + repeated(field as nat, items@.take(i as int), |x: Transaction| transaction_bytes(x)),
        decreases items@.len() - i,
    {
        let payload = encode_transaction(&items[i]);
        put_len_field(buf, field, payload.as_slice());
        proof {
            let next = items@.take(i + 1);
            assert(next.drop_last() =~= items@.take(i as int));
            assert(next.len() == i + 1);
            assert(next[i as int] == items@.subrange(0, i + 1)[i as int]);
            assert(buf@ =~= old(buf)@ + repeated(field as nat, next, |x: Transaction| transaction_bytes(x)));
        }
        i = i + 1;
    }
    assert(items@.take(i as int) =~= items@);
}

} // verus!
