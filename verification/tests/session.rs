use postivene::accounts::{apply_unread, configured_count, deletion_total, unread_badge, AccountItem};
use postivene::events::{qr_kind, relay, EventFacts};
use postivene::session::{Gone, Session, Spawned};
use postivene::signup::{
    backup_code_verdict, profile_completion, restore_completion, restore_outcome, transport_outcome, Attempts,
    CallEnd, ListedAccount, Outcome, ProfileSignal, RestoreSignal, Taken, DEADLINE,
};
use postivene::supervisor::{restart_delay, HEALTHY_UPTIME, RESTART_LIMIT};

fn ready() -> Session {
    let mut session = Session::new();
    session.started("/usr/bin/server".to_string(), Ok(()));
    assert!(matches!(session.spawned(Ok(())), Spawned::Up { .. }));
    session
}

#[test]
fn a_fresh_session_is_idle_and_starts_once() {
    let mut session = Session::new();
    assert_eq!(session.status.text(), "idle");
    assert!(session.can_start());
    session.started("/x".to_string(), Ok(()));
    assert_eq!(session.status.text(), "starting");
    assert!(!session.can_start());
}

#[test]
fn a_runtime_that_cannot_start_is_an_error() {
    let mut session = Session::new();
    session.started("/x".to_string(), Err("no threads".to_string()));
    assert_eq!(session.status.text(), "error: failed to start async runtime: no threads");
    assert!(session.can_start());
}

#[test]
fn a_first_spawn_that_fails_is_reported_and_left_alone() {
    let mut session = Session::new();
    session.started("/x".to_string(), Ok(()));
    assert!(matches!(session.spawned(Err("no such file".to_string())), Spawned::Failed));
    assert_eq!(session.status.text(), "error: no such file");
    assert!(session.can_start());
}

#[test]
fn restarts_back_off_and_then_give_up() {
    let mut session = ready();
    for attempt in 0..RESTART_LIMIT {
        match session.server_gone(Some(1), None) {
            Gone::RetryAfter(seconds) => assert_eq!(seconds, restart_delay(attempt)),
            _ => panic!("gave up after {attempt} restarts"),
        }
        assert_eq!(session.status.text(), "reconnecting");
    }
    match session.server_gone(Some(1), Some("the core's last output was: boom".to_string())) {
        Gone::GaveUp(reason) => assert_eq!(reason.as_deref(), Some("the core's last output was: boom")),
        _ => panic!("did not give up"),
    }
    assert_eq!(session.status.text(), "stopped");
    assert!(session.can_start());
    // Nothing is left to restart.
    assert!(matches!(session.server_gone(None, None), Gone::Nothing));
}

#[test]
fn a_healthy_run_starts_the_backoff_again() {
    let mut session = ready();
    for _ in 0..5 {
        session.server_gone(Some(1), None);
    }
    match session.server_gone(Some(HEALTHY_UPTIME), None) {
        Gone::RetryAfter(seconds) => assert_eq!(seconds, restart_delay(0)),
        _ => panic!("a healthy server was not restarted"),
    }
}

#[test]
fn a_failed_respawn_is_a_server_gone_again() {
    let mut session = ready();
    session.server_gone(Some(1), None);
    match session.spawned(Err("gone".to_string())) {
        Spawned::Retry(Gone::RetryAfter(seconds)) => assert_eq!(seconds, restart_delay(1)),
        _ => panic!("a failed respawn was not retried"),
    }
}

#[test]
fn io_asked_for_is_asked_for_again_after_a_restart() {
    let mut session = ready();
    session.remember_io(4);
    session.remember_io(2);
    session.remember_io(4);
    session.remember_all_io();
    session.server_gone(Some(1), None);
    match session.spawned(Ok(())) {
        Spawned::Up { all, accounts } => {
            assert!(all);
            assert_eq!(accounts, vec![2, 4]);
        }
        _ => panic!("the server did not come back"),
    }
    assert_eq!(session.status.text(), "ready");
}

#[test]
fn a_setting_is_written_once_per_change() {
    let mut session = Session::new();
    assert!(session.settings_to_write().is_empty());
    let write = session.set_download_limit(1024).expect("a new limit is written");
    assert_eq!(write.key, "download_limit");
    assert_eq!(write.value, "1024");
    assert!(session.set_download_limit(1024).is_none());
    assert!(session.set_delete_device_after(3600).is_some());
    let writes: Vec<(String, String)> = session
        .settings_to_write()
        .into_iter()
        .map(|w| (w.key.to_string(), w.value))
        .collect();
    assert_eq!(
        writes,
        vec![
            ("download_limit".to_string(), "1024".to_string()),
            ("delete_device_after".to_string(), "3600".to_string()),
        ]
    );
}

#[test]
fn the_profile_deadline_is_the_pages_or_the_built_in_one() {
    let mut session = Session::new();
    assert_eq!(session.profile_deadline(), DEADLINE);
    session.profile_timeout = 2;
    assert_eq!(session.profile_deadline(), 2);
}

#[test]
fn a_result_for_nobody_is_not_told_and_its_profile_removed() {
    assert!(matches!(profile_completion(true, Outcome::Created(3)), ProfileSignal::Created(3)));
    assert!(matches!(profile_completion(false, Outcome::Created(3)), ProfileSignal::Discard(3)));
    assert!(matches!(profile_completion(false, Outcome::Failed("no".to_string())), ProfileSignal::Quiet));
    assert!(matches!(profile_completion(true, Outcome::TimedOut(30)), ProfileSignal::TimedOut(30)));
    assert!(matches!(restore_completion(true, Taken::Done(5)), RestoreSignal::Restored(5)));
    assert!(matches!(restore_completion(false, Taken::Done(5)), RestoreSignal::Discard(5)));
    assert!(matches!(restore_completion(true, Taken::Refused("too-new")), RestoreSignal::Refused("too-new")));
    assert!(matches!(restore_completion(false, Taken::Failed("x".to_string())), RestoreSignal::Quiet));
}

#[test]
fn how_the_long_call_came_back_decides_the_outcome() {
    assert!(matches!(transport_outcome(7, CallEnd::Returned(Ok(())), DEADLINE), Outcome::Created(7)));
    match transport_outcome(7, CallEnd::Returned(Err("refused".to_string())), DEADLINE) {
        Outcome::Failed(words) => assert_eq!(words, "refused"),
        _ => panic!("a refusal is a failure"),
    }
    assert!(matches!(transport_outcome(7, CallEnd::Late, 45), Outcome::TimedOut(45)));
    assert!(matches!(transport_outcome(7, CallEnd::Late, u64::MAX), Outcome::TimedOut(u32::MAX)));
    let (taken, remove) = restore_outcome(8, CallEnd::Late);
    assert!(matches!(taken, Taken::Refused("stalled")));
    assert!(!remove);
    let (taken, remove) = restore_outcome(8, CallEnd::Lost("panicked".to_string()));
    assert!(matches!(taken, Taken::Failed(_)));
    assert!(remove);
}

#[test]
fn only_a_device_offering_a_profile_is_taken_over_from() {
    assert_eq!(backup_code_verdict(Some("backup2")), Ok(()));
    assert_eq!(backup_code_verdict(Some("backupTooNew")), Err("too-new"));
    assert_eq!(backup_code_verdict(Some("text")), Err("not-a-backup"));
    assert_eq!(backup_code_verdict(None), Err("not-a-backup"));
}

#[test]
fn a_profile_goes_on_an_unconfigured_account_nobody_holds() {
    let mut attempts = Attempts::new();
    let listed = vec![
        ListedAccount { id: Some(1), unconfigured: false },
        ListedAccount { id: None, unconfigured: true },
        ListedAccount { id: Some(2), unconfigured: true },
        ListedAccount { id: Some(3), unconfigured: true },
    ];
    assert_eq!(attempts.pick_free(&listed), Some(2));
    assert_eq!(attempts.pick_free(&listed), Some(3));
    assert_eq!(attempts.pick_free(&listed), None);
    assert_eq!(attempts.busy(), vec![2, 3]);
    // A success that came back after the reader gave up is removed.
    assert!(attempts.call_returned(2, true, false));
    assert!(!attempts.call_returned(3, true, true));
    assert!(attempts.busy().is_empty());
}

#[test]
fn naming_fails_or_is_given_up_on_before_the_long_call() {
    let mut attempts = Attempts::new();
    let attempt = attempts.begin(DEADLINE);
    attempts.hold(4);
    assert!(attempts.after_naming(attempt.id(), 4, Ok(())).is_none());
    assert!(attempts.holds(4));
    attempts.cancel();
    match attempts.after_naming(attempt.id(), 4, Ok(())) {
        Some(Outcome::Failed(words)) => assert_eq!(words, "cancelled"),
        _ => panic!("a cancelled attempt went on"),
    }
    assert!(!attempts.holds(4));
}

#[test]
fn events_are_relayed_as_the_pages_read_them() {
    let facts = |kind: &str, msg: &str, progress: Option<u32>| EventFacts {
        context_id: 2,
        kind: kind.to_string(),
        msg: msg.to_string(),
        progress,
    };
    let error = relay(&facts("Error", "", None));
    assert_eq!(error.core_error.as_deref(), Some("the core reported an error"));
    assert_eq!(error.kind, "Error");
    let progress = relay(&facts("ConfigureProgress", "", Some(300)));
    assert_eq!(progress.configure_progress, Some((2, 300)));
    assert!(progress.core_error.is_none());
    assert!(!progress.refresh_unread);
    let import = relay(&facts("ImexProgress", "", Some(1000)));
    assert_eq!(import.restore_progress, Some(1000));
    assert!(relay(&facts("MsgsNoticed", "", None)).refresh_unread);
    assert_eq!(relay(&facts("", "", None)).kind, "Unknown");
    assert_eq!(qr_kind(&String::new()), "unknown");
    assert_eq!(qr_kind(&"backup2".to_string()), "backup2");
}

#[test]
fn an_unread_count_changes_only_its_own_row() {
    let row = |id: u32, count: u32| AccountItem {
        account_id: id,
        is_configured: true,
        unread_count: count,
        ..AccountItem::default()
    };
    let mut rows = vec![row(1, 0), row(2, 5)];
    assert_eq!(apply_unread(&mut rows, 2, 5), None);
    assert_eq!(apply_unread(&mut rows, 2, 7), Some(1));
    assert_eq!(rows[1].unread_count, 7);
    assert_eq!(rows[0].unread_count, 0);
    assert_eq!(apply_unread(&mut rows, 9, 1), None);
    assert_eq!(configured_count(&rows), 2);
    assert_eq!(unread_badge(None), 0);
    assert_eq!(unread_badge(Some(3)), 3);
    assert_eq!(deletion_total(&[1, 2, 3]), 6);
    assert_eq!(deletion_total(&[u64::MAX, 1]), u32::MAX);
}
