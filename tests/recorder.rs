use deepmind::deepmind::{
    deepmind_enabled_augmented, deepmind_enabled_standard, enable_augmented_mode,
    enable_deepmind, inst_err_to_pb, DMBatchContext, DeepmindConfig, DeepmindMode, RecorderError,
};
use solana_program::instruction::InstructionError;
use solana_transaction_error::TransactionError;

fn context_with_trx() -> DMBatchContext {
    let mut ctx = DMBatchContext::new(7, 0, "/tmp");
    ctx.start_trx(vec![b"S1".to_vec()], 1, 0, 0, vec![], &[]).unwrap();
    ctx
}

fn all_ordinals(ctx: &DMBatchContext) -> Vec<u64> {
    let trx = &ctx.trxs[0];
    let mut ordinals = vec![trx.pb_transaction.begin_ordinal];
    for log in &trx.pb_transaction.logs {
        ordinals.push(log.ordinal);
    }
    for instruction in &trx.pb_transaction.instructions {
        ordinals.push(instruction.begin_ordinal);
        if instruction.end_ordinal != 0 {
            ordinals.push(instruction.end_ordinal);
        }
        for log in &instruction.logs {
            ordinals.push(log.ordinal);
        }
    }
    ordinals.sort();
    ordinals
}

#[test]
fn single_instruction_scenario() {
    let mut ctx = context_with_trx();
    ctx.start_instruction(b"P", vec![b"A".to_vec()], &[]);
    {
        let trx = &ctx.trxs[0];
        let instruction = &trx.pb_transaction.instructions[0];
        assert_eq!(trx.ordinal_count, 2);
        assert_eq!(instruction.begin_ordinal, 2);
        assert_eq!(instruction.index, 1);
        assert_eq!(instruction.parent_index, 0);
        assert_eq!(instruction.depth, 0);
        assert_eq!(instruction.program_id, b"P".to_vec());
        assert_eq!(instruction.account_keys, vec![b"A".to_vec()]);
        assert!(instruction.data.is_empty());
    }
    ctx.add_instruction_log("hi".to_string());
    {
        let instruction = &ctx.trxs[0].pb_transaction.instructions[0];
        assert_eq!(instruction.logs.len(), 1);
        assert_eq!(instruction.logs[0].message, "hi");
        assert_eq!(instruction.logs[0].ordinal, 3);
    }
    ctx.end_instruction();
    {
        let trx = &ctx.trxs[0];
        assert_eq!(trx.pb_transaction.instructions[0].end_ordinal, 4);
        assert_eq!(trx.call_stack, vec![0]);
    }
    let bytes = ctx.flush();
    assert!(ctx.trxs.is_empty());
    let expected: Vec<u8> = vec![
        0x0A, 0x20, // batch: transaction 1, 32 bytes
        0x0A, 0x02, b'S', b'1', // id
        0x1A, 0x02, 0x08, 0x01, // header: one required signature
        0x32, 0x14, // instruction 1, 20 bytes
        0x0A, 0x01, b'P', // program id
        0x12, 0x01, b'A', // account key
        0x20, 0x01, // index 1
        0x4A, 0x06, 0x0A, 0x02, b'h', b'i', 0x10, 0x03, // log "hi" at ordinal 3
        0x50, 0x02, // begin ordinal 2
        0x58, 0x04, // end ordinal 4
        0x48, 0x01, // transaction begin ordinal 1
    ];
    assert_eq!(bytes, expected);
    assert_eq!(ctx.handoff_line(&Ok(())), "DMLOG BATCH_FILE dmlog-1-7");
}

#[test]
fn nested_instruction_is_child_of_outer() {
    let mut ctx = context_with_trx();
    ctx.start_instruction(b"OUTER", vec![], &[]);
    ctx.start_instruction(b"INNER", vec![], &[1, 2]);
    ctx.start_instruction(b"LEAF", vec![], &[]);
    ctx.end_instruction();
    ctx.end_instruction();
    ctx.start_instruction(b"SECOND", vec![], &[]);
    ctx.end_instruction();
    ctx.end_instruction();
    ctx.start_instruction(b"ROOT2", vec![], &[]);
    let instructions = &ctx.trxs[0].pb_transaction.instructions;
    let outer = &instructions[0];
    let inner = &instructions[1];
    let leaf = &instructions[2];
    let second = &instructions[3];
    let root2 = &instructions[4];
    assert_eq!(inner.parent_index, outer.index);
    assert_eq!(inner.depth, outer.depth + 1);
    assert_eq!(leaf.parent_index, inner.index);
    assert_eq!(leaf.depth, 2);
    assert_eq!(second.parent_index, outer.index);
    assert_eq!(second.depth, 1);
    assert_eq!((root2.parent_index, root2.depth, root2.index), (0, 0, 5));
    assert!(outer.begin_ordinal < inner.begin_ordinal);
    assert!(leaf.end_ordinal < inner.end_ordinal);
    assert!(inner.end_ordinal < outer.end_ordinal);
    assert_eq!(root2.end_ordinal, 0);
    assert_eq!(ctx.trxs[0].call_stack, vec![0, 5]);
}

#[test]
fn ordinals_are_gap_free_and_in_call_order() {
    let mut ctx = context_with_trx();
    ctx.add_log("top".to_string());
    ctx.start_instruction(b"A", vec![], &[]);
    ctx.add_instruction_log("a1".to_string());
    ctx.start_instruction(b"B", vec![], &[]);
    ctx.add_instruction_log("b1".to_string());
    ctx.add_log("top2".to_string());
    ctx.end_instruction();
    ctx.add_instruction_log("a2".to_string());
    ctx.end_instruction();
    let trx = &ctx.trxs[0];
    assert_eq!(trx.ordinal_count, 10);
    assert_eq!(all_ordinals(&ctx), (1..=10).collect::<Vec<u64>>());
    let a = &trx.pb_transaction.instructions[0];
    let b = &trx.pb_transaction.instructions[1];
    assert_eq!(trx.pb_transaction.logs[0].ordinal, 2);
    assert_eq!(a.begin_ordinal, 3);
    assert_eq!(a.logs[0].ordinal, 4);
    assert_eq!(b.begin_ordinal, 5);
    assert_eq!(b.logs[0].ordinal, 6);
    assert_eq!(trx.pb_transaction.logs[1].ordinal, 7);
    assert_eq!(b.end_ordinal, 8);
    assert_eq!(a.logs[1].ordinal, 9);
    assert_eq!(a.end_ordinal, 10);
}

#[test]
fn state_changes_do_not_tick_the_clock() {
    let mut ctx = context_with_trx();
    ctx.start_instruction(b"P", vec![], &[]);
    let before = ctx.trxs[0].ordinal_count;
    ctx.add_account_change(b"K", &[1, 2], &[3, 4, 5]);
    ctx.add_lamport_change(b"K", 10, 7);
    assert_eq!(ctx.trxs[0].ordinal_count, before);
    let instruction = &ctx.trxs[0].pb_transaction.instructions[0];
    assert_eq!(instruction.account_changes.len(), 1);
    let change = &instruction.account_changes[0];
    assert_eq!(change.pubkey, b"K".to_vec());
    assert_eq!(change.prev_data, vec![1, 2]);
    assert_eq!(change.new_data, vec![3, 4, 5]);
    assert_eq!(change.new_data_length, 3);
    let balance = &instruction.balance_changes[0];
    assert_eq!((balance.prev_lamports, balance.new_lamports), (10, 7));
}

#[test]
fn flush_of_empty_recorder_gives_empty_batch_and_a_handoff_line() {
    let mut ctx = DMBatchContext::new(3, 4, "/data");
    let bytes = ctx.flush();
    assert!(bytes.is_empty());
    assert!(ctx.trxs.is_empty());
    assert_eq!(ctx.handoff_line(&Ok(())), "DMLOG BATCH_FILE dmlog-5-3");
}

#[test]
fn failed_write_consumes_the_batch_and_reports_an_error_line() {
    let mut ctx = context_with_trx();
    ctx.start_instruction(b"P", vec![], &[]);
    let bytes = ctx.flush();
    assert!(!bytes.is_empty());
    let line = ctx.handoff_line(&Err("disk full".to_string()));
    assert_eq!(line, "DMLOG ERROR FILE disk full");
    assert!(ctx.trxs.is_empty());
    assert!(ctx.flush().is_empty());
}

#[test]
fn start_trx_without_signatures_is_rejected() {
    let mut ctx = DMBatchContext::new(1, 0, "/tmp");
    let r = ctx.start_trx(vec![], 1, 0, 0, vec![], &[]);
    assert_eq!(r, Err(RecorderError::NoSignatures));
    assert!(ctx.trxs.is_empty());
}

#[test]
fn start_trx_records_identity_and_header() {
    let mut ctx = DMBatchContext::new(1, 0, "/tmp");
    let sigs = vec![b"S1".to_vec(), b"S2".to_vec(), b"S3".to_vec()];
    ctx.start_trx(sigs, 2, 1, 3, vec![b"K1".to_vec(), b"K2".to_vec()], b"HASH").unwrap();
    let trx = &ctx.trxs[0];
    assert_eq!(trx.ordinal_count, 1);
    assert_eq!(trx.call_stack, vec![0]);
    let tx = &trx.pb_transaction;
    assert_eq!(tx.id, b"S1".to_vec());
    assert_eq!(tx.additional_signatures, vec![b"S2".to_vec(), b"S3".to_vec()]);
    let header = tx.header.as_ref().unwrap();
    assert_eq!(
        (
            header.num_required_signatures,
            header.num_readonly_signed_accounts,
            header.num_readonly_unsigned_accounts
        ),
        (2, 1, 3)
    );
    assert_eq!(tx.account_keys, vec![b"K1".to_vec(), b"K2".to_vec()]);
    assert_eq!(tx.recent_blockhash, b"HASH".to_vec());
    assert_eq!(tx.begin_ordinal, 1);
}

#[test]
fn calls_without_transaction_or_instruction_are_ignored() {
    let mut ctx = DMBatchContext::new(1, 0, "/tmp");
    ctx.start_instruction(b"P", vec![], &[]);
    ctx.add_instruction_log("lost".to_string());
    ctx.end_instruction();
    ctx.error_trx(&TransactionError::AccountInUse);
    assert!(ctx.trxs.is_empty());

    let mut ctx = context_with_trx();
    ctx.add_instruction_log("no span".to_string());
    ctx.end_instruction();
    ctx.add_account_change(b"K", &[1], &[2]);
    ctx.add_lamport_change(b"K", 1, 2);
    ctx.error_instruction(&InstructionError::InvalidArgument);
    let trx = &ctx.trxs[0];
    assert_eq!(trx.ordinal_count, 1);
    assert_eq!(trx.call_stack, vec![0]);
    assert!(trx.pb_transaction.instructions.is_empty());
}

#[test]
fn errors_are_recorded_as_display_text() {
    let mut ctx = context_with_trx();
    ctx.start_instruction(b"P", vec![], &[]);
    ctx.error_instruction(&InstructionError::InvalidArgument);
    ctx.error_trx(&TransactionError::AccountInUse);
    let tx = &ctx.trxs[0].pb_transaction;
    assert!(tx.instructions[0].failed);
    assert_eq!(
        tx.instructions[0].error.as_ref().unwrap().error,
        "invalid program argument"
    );
    assert!(tx.failed);
    assert_eq!(tx.error.as_ref().unwrap().error, "Account in use");
    assert_eq!(ctx.trxs[0].ordinal_count, 2);
}

#[test]
fn instruction_error_summary_is_its_display_text() {
    let summary = inst_err_to_pb(&InstructionError::Custom(0x2a)).unwrap();
    assert_eq!(summary.error, InstructionError::Custom(0x2a).to_string());
}

#[test]
fn batch_file_names_follow_sequence_and_id() {
    let ctx = DMBatchContext::new(1234567890123, 41, "d");
    assert_eq!(ctx.filename, "dmlog-42-1234567890123");
    assert_eq!(ctx.path, "d/dmlog-42-1234567890123");
    assert_eq!(ctx.batch_number, 1234567890123);
    let ctx = DMBatchContext::new(0, 9, "/tmp");
    assert_eq!(ctx.path, "/tmp/dmlog-10-0");
}

#[test]
fn flags_select_mode() {
    let mut config = DeepmindConfig::new();
    assert!(!deepmind_enabled_standard(&config));
    assert!(!deepmind_enabled_augmented(&config));
    enable_augmented_mode(&mut config);
    assert!(!deepmind_enabled_augmented(&config));
    enable_deepmind(&mut config);
    assert!(deepmind_enabled_augmented(&config));
    assert!(!deepmind_enabled_standard(&config));
    assert_eq!(config.mode, DeepmindMode::Augmented);

    let mut config = DeepmindConfig::new();
    enable_deepmind(&mut config);
    assert!(deepmind_enabled_standard(&config));
}
