use rdm::command::{CommandLedger, CommandStatus, LedgerError, Settled};

fn s(x: &str) -> String {
    x.to_string()
}

fn ledger_with(ids: &[(&str, &str)]) -> CommandLedger {
    let mut l = CommandLedger::new();
    for (id, dev) in ids {
        l.enqueue_with_id(s(id), s(dev), s("ls"), false, 100).unwrap();
    }
    l
}

#[test]
fn enqueue_records_a_queued_command() {
    let l = ledger_with(&[("c1", "d1")]);
    let c = l.get("c1").unwrap();
    assert_eq!(c.status, CommandStatus::Queued);
    assert_eq!(c.device_id, "d1");
    assert_eq!(c.created_at, 100);
    assert_eq!(c.output, None);
    assert_eq!(c.completed_at, None);
    assert!(l.get("c2").is_none());
}

#[test]
fn enqueue_generates_fresh_identifiers() {
    let mut l = CommandLedger::new();
    let a = l.enqueue(s("d1"), s("ls"), true).unwrap();
    let b = l.enqueue(s("d1"), s("ls"), true).unwrap();
    assert_eq!(a.len(), 36);
    assert_ne!(a, b);
    assert_eq!(l.get(&a).unwrap().status, CommandStatus::Queued);
    assert!(l.get(&a).unwrap().sudo);
    assert_eq!(l.len(), 2);
}

#[test]
fn duplicate_identifier_is_refused() {
    let mut l = ledger_with(&[("c1", "d1")]);
    assert_eq!(l.enqueue_with_id(s("c1"), s("d2"), s("x"), false, 5), Err(LedgerError::DuplicateId));
    assert_eq!(l.len(), 1);
}

#[test]
fn begin_execution_moves_queued_to_executing() {
    let mut l = ledger_with(&[("c1", "d1")]);
    assert_eq!(l.begin_execution("c1"), Ok(()));
    assert_eq!(l.get("c1").unwrap().status, CommandStatus::Executing);
}

#[test]
fn begin_execution_twice_is_invalid_and_changes_nothing() {
    let mut l = ledger_with(&[("c1", "d1")]);
    l.begin_execution("c1").unwrap();
    let before = l.get("c1").unwrap().clone();
    assert_eq!(l.begin_execution("c1"), Err(LedgerError::InvalidTransition));
    assert_eq!(l.get("c1").unwrap(), &before);
    l.complete("c1", s("ok"), 200).unwrap();
    let done = l.get("c1").unwrap().clone();
    assert_eq!(l.begin_execution("c1"), Err(LedgerError::InvalidTransition));
    assert_eq!(l.get("c1").unwrap(), &done);
    assert_eq!(l.begin_execution("nope"), Err(LedgerError::NotFound));
}

#[test]
fn one_command_in_flight_per_device() {
    let mut l = ledger_with(&[("c1", "d1"), ("c2", "d1"), ("c3", "d2")]);
    assert_eq!(l.begin_execution("c1"), Ok(()));
    assert_eq!(l.begin_execution("c2"), Err(LedgerError::InvalidTransition));
    assert_eq!(l.get("c2").unwrap().status, CommandStatus::Queued);
    assert_eq!(l.begin_execution("c3"), Ok(()));
    l.complete("c1", s("ok"), 300).unwrap();
    assert_eq!(l.begin_execution("c2"), Ok(()));
}

#[test]
fn complete_stamps_output_and_time() {
    let mut l = ledger_with(&[("c1", "d1")]);
    l.begin_execution("c1").unwrap();
    assert_eq!(l.complete("c1", s("ok"), 250), Ok(Settled::Applied));
    let c = l.get("c1").unwrap();
    assert_eq!(c.status, CommandStatus::Completed);
    assert_eq!(c.output, Some(s("ok")));
    assert_eq!(c.error, None);
    assert_eq!(c.completed_at, Some(250));
}

#[test]
fn fail_keeps_output_and_error() {
    let mut l = ledger_with(&[("c1", "d1")]);
    l.begin_execution("c1").unwrap();
    assert_eq!(l.fail("c1", Some(s("partial")), s("exit 2"), 260), Ok(Settled::Applied));
    let c = l.get("c1").unwrap();
    assert_eq!(c.status, CommandStatus::Failed);
    assert_eq!(c.output, Some(s("partial")));
    assert_eq!(c.error, Some(s("exit 2")));
    assert_eq!(c.completed_at, Some(260));
}

#[test]
fn duplicate_result_is_absorbed() {
    let mut l = ledger_with(&[("c1", "d1")]);
    l.begin_execution("c1").unwrap();
    l.complete("c1", s("ok"), 250).unwrap();
    assert_eq!(l.complete("c1", s("again"), 999), Ok(Settled::AlreadyFinal));
    assert_eq!(l.fail("c1", None, s("late"), 1000), Ok(Settled::AlreadyFinal));
    let c = l.get("c1").unwrap();
    assert_eq!(c.completed_at, Some(250));
    assert_eq!(c.output, Some(s("ok")));
    assert_eq!(c.status, CommandStatus::Completed);
}

#[test]
fn result_for_queued_or_unknown_command_is_refused() {
    let mut l = ledger_with(&[("c1", "d1")]);
    assert_eq!(l.complete("c1", s("ok"), 1), Err(LedgerError::InvalidTransition));
    assert_eq!(l.get("c1").unwrap().status, CommandStatus::Queued);
    assert_eq!(l.complete("zz", s("ok"), 1), Err(LedgerError::NotFound));
}

#[test]
fn fail_in_flight_fails_only_that_device() {
    let mut l = ledger_with(&[("c1", "d1"), ("c2", "d2"), ("c3", "d1")]);
    l.begin_execution("c1").unwrap();
    l.begin_execution("c2").unwrap();
    l.fail_in_flight(&s("d1"), &s("gone"), 77);
    assert_eq!(l.get("c1").unwrap().status, CommandStatus::Failed);
    assert_eq!(l.get("c1").unwrap().error, Some(s("gone")));
    assert_eq!(l.get("c1").unwrap().completed_at, Some(77));
    assert_eq!(l.get("c2").unwrap().status, CommandStatus::Executing);
    assert_eq!(l.get("c3").unwrap().status, CommandStatus::Queued);
}

#[test]
fn status_names() {
    assert_eq!(CommandStatus::Queued.as_text(), "queued");
    assert_eq!(CommandStatus::Executing.as_text(), "executing");
    assert_eq!(CommandStatus::Completed.as_text(), "completed");
    assert_eq!(CommandStatus::Failed.as_text(), "failed");
}
