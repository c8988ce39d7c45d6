use postivene::signup::{Attempts, Taken, DEADLINE};

#[test]
fn the_latest_attempt_is_the_one_that_counts() {
    let mut attempts = Attempts::new();
    let first = attempts.begin(DEADLINE);
    assert!(attempts.is_current(first.id()));
    let second = attempts.begin(DEADLINE);
    assert!(!attempts.is_current(first.id()));
    assert!(attempts.is_current(second.id()));
    assert_ne!(first.id(), second.id());
}

#[test]
fn a_cancel_leaves_no_attempt_current_and_names_what_is_held() {
    let mut attempts = Attempts::new();
    let attempt = attempts.begin(DEADLINE);
    attempts.hold(7);
    attempts.hold(3);
    assert_eq!(attempts.cancel(), vec![3, 7]);
    assert!(!attempts.is_current(attempt.id()));
    // Cancelling stops the waiting, not the holding: the core's process is
    // still running on those accounts.
    assert_eq!(attempts.busy().len(), 2);
    attempts.release(7);
    assert_eq!(attempts.busy(), vec![3]);
}

#[test]
fn holding_an_account_twice_holds_it_once() {
    let mut attempts = Attempts::new();
    assert!(attempts.hold(5));
    assert!(!attempts.hold(5));
    assert!(attempts.holds(5));
    assert_eq!(attempts.busy(), vec![5]);
    attempts.release(5);
    assert!(!attempts.holds(5));
    assert!(attempts.busy().is_empty());
}

#[test]
fn a_cancelled_attempt_stays_superseded_by_the_next() {
    let mut attempts = Attempts::new();
    let first = attempts.begin(DEADLINE);
    attempts.cancel();
    let second = attempts.begin(DEADLINE);
    assert!(!attempts.is_current(first.id()));
    assert!(attempts.is_current(second.id()));
    assert!(second.id() > first.id());
}

#[test]
fn attempts_have_ever_greater_ids() {
    let mut attempts = Attempts::new();
    let first = attempts.begin(DEADLINE);
    assert_eq!(first.id(), 1);
    assert_eq!(first.id(), attempts.begun);
    attempts.cancel();
    attempts.hold(7);
    let second = attempts.begin(DEADLINE);
    assert_eq!(second.id(), 2);
    assert!(first.id() < second.id());
}

#[test]
fn a_refused_code_lets_the_account_go() {
    let mut attempts = Attempts::new();
    attempts.begin(DEADLINE);
    attempts.hold(4);
    attempts.hold(5);
    assert!(attempts.after_code_check(4, Ok(())).is_none());
    assert!(attempts.holds(4));
    match attempts.after_code_check(4, Err("too new")) {
        Some(Taken::Refused(reason)) => assert_eq!(reason, "too new"),
        _ => panic!("a refused code ends the attempt"),
    }
    assert!(!attempts.holds(4));
    assert!(attempts.holds(5));
}
