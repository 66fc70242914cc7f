use deepmind::codec::{ErrorSummary, Instruction, Log};
use deepmind::wire::encode_instruction;

fn instruction() -> Instruction {
    Instruction {
        program_id: vec![],
        account_keys: vec![],
        data: vec![],
        index: 1,
        parent_index: 0,
        depth: 0,
        balance_changes: vec![],
        account_changes: vec![],
        logs: vec![],
        begin_ordinal: 300,
        end_ordinal: 0,
        failed: false,
        error: None,
    }
}

#[test]
fn multi_byte_varints_and_defaults_left_out() {
    let bytes = encode_instruction(&instruction());
    assert_eq!(bytes, vec![0x20, 0x01, 0x50, 0xAC, 0x02]);
}

#[test]
fn failure_and_empty_repeated_entries_are_written() {
    let mut i = instruction();
    i.begin_ordinal = 2;
    i.account_keys = vec![vec![]];
    i.failed = true;
    i.error = Some(ErrorSummary { error: "e".to_string() });
    i.logs = vec![Log { message: String::new(), ordinal: 0 }];
    let bytes = encode_instruction(&i);
    assert_eq!(
        bytes,
        vec![
            0x12, 0x00, // an empty account key
            0x20, 0x01, // index 1
            0x4A, 0x00, // a log with default fields
            0x50, 0x02, // begin ordinal 2
            0x60, 0x01, // failed
            0x6A, 0x03, 0x0A, 0x01, b'e', // error summary
        ]
    );
}
