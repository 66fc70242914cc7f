use deepmind::deepmind::DMBatchContext;
use deepmind::log_collector::{LogCollector, LOG_MESSAGES_BYTES_LIMIT};

#[test]
fn test_log_messages_bytes_limit() {
    let mut lc = LogCollector::default();

    for _i in 0..LOG_MESSAGES_BYTES_LIMIT * 2 {
        lc.log("x");
    }

    let logs: Vec<_> = lc.into();
    assert_eq!(logs.len(), LOG_MESSAGES_BYTES_LIMIT);
    for log in logs.iter().take(LOG_MESSAGES_BYTES_LIMIT - 1) {
        assert_eq!(*log, "x".to_string());
    }
    assert_eq!(logs.last(), Some(&"Log truncated".to_string()));
}

#[test]
fn small_budget_keeps_budget_minus_one_then_sentinel() {
    let mut lc = LogCollector::with_limit(3);
    for _ in 0..5 {
        lc.log("x");
    }
    assert_eq!(lc.all_messages().len(), 5);
    assert_eq!(lc.into_messages(), vec!["x", "x", "Log truncated"]);
}

#[test]
fn messages_after_truncation_are_dropped_even_if_they_fit() {
    let mut lc = LogCollector::with_limit(5);
    lc.log("abcd");
    lc.log("zz");
    lc.log("");
    lc.log("y");
    assert_eq!(lc.all_messages(), &vec!["abcd", "zz", "", "y"]);
    assert_eq!(lc.into_messages(), vec!["abcd", "Log truncated"]);
}

#[test]
fn budget_counts_bytes_not_characters() {
    let mut lc = LogCollector::with_limit(3);
    lc.log("é");
    lc.log("é");
    assert_eq!(lc.into_messages(), vec!["é", "Log truncated"]);
}

#[test]
fn message_filling_the_budget_exactly_is_truncated() {
    let mut lc = LogCollector::with_limit(4);
    lc.log("abcd");
    assert_eq!(lc.into_messages(), vec!["Log truncated"]);
}

#[test]
fn clearing_the_unbounded_view_keeps_the_bounded_one() {
    let mut lc = LogCollector::new();
    lc.log("one");
    lc.log("two");
    lc.clear_all_messages();
    assert!(lc.all_messages().is_empty());
    lc.log("three");
    assert_eq!(lc.all_messages(), &vec!["three"]);
    assert_eq!(lc.into_messages(), vec!["one", "two", "three"]);
}

#[test]
fn traced_log_is_mirrored_into_the_active_instruction() {
    let mut ctx = DMBatchContext::new(1, 0, "/tmp");
    ctx.start_trx(vec![b"S1".to_vec()], 1, 0, 0, vec![], &[]).unwrap();
    ctx.start_instruction(b"P", vec![], &[]);
    let mut lc = LogCollector::new();
    lc.log_traced("hello", &mut ctx);
    let instruction = &ctx.trxs[0].pb_transaction.instructions[0];
    assert_eq!(instruction.logs.len(), 1);
    assert_eq!(instruction.logs[0].message, "hello");
    assert_eq!(instruction.logs[0].ordinal, 3);
    assert_eq!(lc.into_messages(), vec!["hello"]);
}
