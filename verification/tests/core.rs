use postivene::accounts::{reconcile_accounts, resume_account, AccountItem, RowEdit};
use postivene::launch::{server_path, BUNDLED_SERVER};
use postivene::supervisor::{last_words, restart_delay, RESTART_DELAY_MAX, RESTART_DELAY_MIN, RESTART_LIMIT};

fn account(id: u32, name: &str) -> AccountItem {
    AccountItem {
        account_id: id,
        display_name: name.into(),
        is_configured: true,
        ..AccountItem::default()
    }
}

fn ids(rows: &[AccountItem]) -> Vec<(u32, String)> {
    rows.iter()
        .map(|row| (row.account_id, row.display_name.to_string()))
        .collect()
}

#[test]
fn a_refresh_removes_inserts_and_changes_rows_where_they_stand() {
    let mut rows: Vec<AccountItem> = Vec::new();
    reconcile_accounts(
        &mut rows,
        vec![account(1, "a"), account(2, "b"), account(3, "c")],
    );
    assert_eq!(
        ids(&rows),
        vec![(1, "a".into()), (2, "b".into()), (3, "c".into())]
    );
    // One gone from the middle, one renamed, one new at the end.
    reconcile_accounts(
        &mut rows,
        vec![account(1, "ada"), account(3, "c"), account(4, "d")],
    );
    assert_eq!(
        ids(&rows),
        vec![(1, "ada".into()), (3, "c".into()), (4, "d".into())]
    );
    // A reordering still ends with exactly the wanted rows.
    reconcile_accounts(&mut rows, vec![account(4, "d"), account(1, "ada")]);
    assert_eq!(ids(&rows), vec![(4, "d".into()), (1, "ada".into())]);
    reconcile_accounts(&mut rows, Vec::new());
    assert_eq!(ids(&rows), Vec::<(u32, String)>::new());
}

#[test]
fn the_app_comes_back_to_the_selected_profile_when_it_is_usable() {
    let unconfigured = AccountItem {
        account_id: 3,
        is_configured: false,
        ..AccountItem::default()
    };
    let items = vec![account(1, "a"), account(2, "b"), unconfigured];
    // What the core has selected wins, whichever position it is in.
    assert_eq!(resume_account(&items, Some(2)), 2);
    assert_eq!(resume_account(&items, Some(1)), 1);
    // Nothing selected, a profile that is gone, and one that never finished
    // setting up all fall back to the first that works.
    assert_eq!(resume_account(&items, None), 1);
    assert_eq!(resume_account(&items, Some(9)), 1);
    assert_eq!(resume_account(&items, Some(3)), 1);
    // And with nothing usable there is nothing to come back to.
    assert_eq!(resume_account(&[], Some(1)), 0);
    assert_eq!(resume_account(&items[2..], None), 0);
}

fn args(list: &[&str]) -> Vec<String> {
    list.iter().map(ToString::to_string).collect()
}

#[test]
fn the_server_is_the_flag_then_the_environment_then_the_bundle() {
    assert_eq!(
        server_path(args(&["--rpc-server", "/x/server"]), Some("/env".into())),
        "/x/server"
    );
    assert_eq!(
        server_path(args(&["--rpc-server=/y/server"]), None),
        "/y/server"
    );
    // The invoker's own arguments are not a server.
    assert_eq!(
        server_path(
            args(&["-prestart", "--type=silica-qt5"]),
            Some("/env".into())
        ),
        "/env"
    );
    assert_eq!(server_path(args(&[]), None), BUNDLED_SERVER);
}

#[test]
fn the_server_is_never_looked_up_on_path() {
    // A bare name would go to PATH, and whatever answered there would be
    // handed the mail password. Nothing here produces one, an empty
    // environment variable included.
    for env in [None, Some(String::new())] {
        let path = server_path(args(&["--rpc-server"]), env);
        assert!(path.starts_with('/'), "{path:?} would be looked up on PATH");
    }
}

#[test]
fn last_words_keep_the_tail_and_say_nothing_for_silence() {
    assert_eq!(last_words(&[]), None);
    let lines: Vec<String> = (1..=7).map(|n| format!("line {n}")).collect();
    let words = last_words(&lines).unwrap_or_default();
    assert!(words.ends_with("line 3 | line 4 | line 5 | line 6 | line 7"));
    assert!(!words.contains("line 2"));
}

#[test]
fn the_backoff_doubles_and_then_stops_doubling() {
    assert_eq!(restart_delay(0), RESTART_DELAY_MIN);
    assert_eq!(restart_delay(1), RESTART_DELAY_MIN * 2);
    assert_eq!(restart_delay(2), RESTART_DELAY_MIN * 4);
    assert_eq!(restart_delay(5), RESTART_DELAY_MAX);
    // Every later attempt waits the ceiling, and the shift that would
    // overflow a u32 does not panic.
    assert_eq!(restart_delay(RESTART_LIMIT), RESTART_DELAY_MAX);
    assert_eq!(restart_delay(u32::MAX), RESTART_DELAY_MAX);
}

#[test]
fn giving_up_takes_longer_than_anything_transient() {
    let total: u64 = (0..RESTART_LIMIT).map(restart_delay).sum();
    assert!(
        total >= 180,
        "the app gives up after {total} s, which is not long enough to \
         outlast a phone that is briefly out of memory"
    );
}

#[test]
fn deleting_the_first_profile_leaves_the_others_where_they_stand() {
    let mut rows: Vec<AccountItem> = Vec::new();
    reconcile_accounts(&mut rows, vec![account(1, "a"), account(2, "b"), account(3, "c")]);
    let edits = reconcile_accounts(&mut rows, vec![account(2, "b"), account(3, "c")]);
    assert_eq!(edits.len(), 1);
    assert!(matches!(edits[0], RowEdit::Remove(0)));
    assert_eq!(ids(&rows), vec![(2, "b".into()), (3, "c".into())]);
}

#[test]
fn a_refresh_changes_a_renamed_row_and_inserts_only_new_profiles() {
    let mut rows: Vec<AccountItem> = Vec::new();
    reconcile_accounts(&mut rows, vec![account(1, "a"), account(3, "c")]);
    let edits = reconcile_accounts(&mut rows, vec![account(1, "ada"), account(2, "b"), account(3, "c")]);
    assert_eq!(edits.len(), 2);
    assert!(matches!(&edits[0], RowEdit::Change(0, item) if item.display_name == "ada"));
    assert!(matches!(&edits[1], RowEdit::Insert(1, item) if item.account_id == 2));
    let again = reconcile_accounts(&mut rows, vec![account(1, "ada"), account(2, "b"), account(3, "c")]);
    assert!(again.is_empty());
}
