use postivene::fake::days::{day_start, day_start_from, LocalDay, DAY, EARLIEST_MARKED, LATEST_MARKED};
use postivene::fake::events::{FakeEvent, QueuedEvent};
use postivene::fake::webxdc::base64;
use postivene::fake::accounts::ListedProfile;
use postivene::fake::messages::{message_html, Quote, LONG_MESSAGE_HTML};
use postivene::fake::reactions::{ReactionBook, ReactionSummary};
use postivene::fake::state::{
    check_qr, http_response, sent_view_type, view_type_for, webxdc_blob, webxdc_summary, ListItem, MessageKnobs,
    SeedKnobs, State, EMPTY_EDIT, NO_FILE, NOT_JSON,
};

fn knobs() -> SeedKnobs {
    SeedKnobs { long_chat: None, media: false, no_archived: false, reacted: false }
}

fn plain() -> MessageKnobs {
    MessageKnobs { info_first: false, wordy: false, self_sent: false, held_back: None }
}

fn seeded() -> State {
    let mut state = State::new();
    state.seed_chats(&knobs());
    state
}

fn emojis(list: &[&str]) -> Vec<String> {
    list.iter().map(|e| e.to_string()).collect()
}

fn counted(summary: &ReactionSummary) -> Vec<(String, usize, bool)> {
    summary
        .counted
        .iter()
        .map(|c| (c.emoji.clone(), c.count, c.from_self))
        .collect()
}

#[test]
fn seeding_happens_once_and_lays_out_three_chats() {
    let mut state = seeded();
    assert_eq!(state.chats.messages_of(1), Some(vec![1, 2]));
    assert_eq!(state.chats.messages_of(2), Some(vec![10]));
    assert_eq!(state.chats.messages_of(3), Some(vec![30]));
    assert_eq!(state.chats.chat_order, vec![1, 2]);
    assert_eq!(state.chats.archived_order, vec![3]);
    assert_eq!(state.chats.next_message_id, 100);
    assert_eq!(state.chats.next_chat_id, 500);
    assert_eq!(state.people.members_of(2), vec![1, 10]);
    // Seeding again, with other wishes, changes nothing.
    state.seed_chats(&SeedKnobs { long_chat: Some(50), media: true, no_archived: true, reacted: true });
    assert_eq!(state.chats.messages_of(1), Some(vec![1, 2]));
    assert_eq!(state.chats.archived_order, vec![3]);
}

#[test]
fn a_long_chat_counts_up_and_moves_the_next_id_past_it() {
    let mut state = State::new();
    state.seed_chats(&SeedKnobs { long_chat: Some(150), media: true, no_archived: true, reacted: false });
    let first = state.chats.messages_of(1).unwrap();
    assert_eq!(first.len(), 150);
    assert_eq!(first[0], 1);
    assert_eq!(first[149], 150);
    assert_eq!(state.chats.next_message_id, 150);
    assert_eq!(state.chats.messages_of(2), Some(vec![10, 12, 13, 14, 15]));
    assert!(state.chats.archived_order.is_empty());
    // Two messages or fewer is no long chat.
    let mut short = State::new();
    short.seed_chats(&SeedKnobs { long_chat: Some(2), media: false, no_archived: false, reacted: false });
    assert_eq!(short.chats.messages_of(1), Some(vec![1, 2]));
}

#[test]
fn reactions_are_counted_most_frequent_first_then_in_text_order() {
    let mut book = ReactionBook::new();
    book.react(1, 10, emojis(&["👍", "🎉"]));
    book.react(1, 11, emojis(&["🎉", "❤"]));
    book.react(1, 1, emojis(&["❤", "🎉", "a"]));
    let summary = book.summary(1).unwrap();
    assert_eq!(
        counted(&summary),
        vec![
            ("🎉".to_string(), 3, true),
            ("❤".to_string(), 2, true),
            ("a".to_string(), 1, true),
            ("👍".to_string(), 1, false),
        ]
    );
    let contacts: Vec<u32> = summary.by_contact.iter().map(|c| c.contact).collect();
    assert_eq!(contacts, vec![1, 10, 11]);
}

#[test]
fn an_empty_list_takes_a_contacts_reactions_back() {
    let mut book = ReactionBook::new();
    assert!(book.summary(4).is_none());
    book.react(4, 1, emojis(&["👍"]));
    assert_eq!(counted(&book.summary(4).unwrap()), vec![("👍".to_string(), 1, true)]);
    // A new list replaces the old one.
    book.react(4, 1, emojis(&["😂"]));
    assert_eq!(counted(&book.summary(4).unwrap()), vec![("😂".to_string(), 1, true)]);
    book.react(4, 1, Vec::new());
    assert!(book.summary(4).is_none());
}

#[test]
fn a_reaction_is_announced_and_carried_by_a_hidden_message() {
    let mut state = State::new();
    state.seed_chats(&SeedKnobs { long_chat: None, media: false, no_archived: false, reacted: true });
    let carrier = state.send_reaction(7, 1, emojis(&["👍"]));
    assert_eq!(carrier, 101);
    assert_eq!(state.chats.next_message_id, 101);
    let summary = state.reactions_of(1).unwrap();
    // Ada's and ours.
    assert_eq!(counted(&summary), vec![("👍".to_string(), 2, true)]);
    assert_eq!(
        state.take_events(),
        vec![QueuedEvent { context_id: 7, event: FakeEvent::ReactionsChanged { chat_id: 1, contact_id: 1, msg_id: 1 } }]
    );
    assert!(state.take_events().is_empty());
}

#[test]
fn a_full_message_lays_what_was_sent_and_edited_over_the_seeded_one() {
    let mut state = seeded();
    let first = state.full_message(1, &plain());
    assert_eq!(first.chat_id, 1);
    assert_eq!(first.message.text, "message 1");
    assert_eq!(first.message.from_id, 10);
    assert!(!first.is_edited);
    assert!(matches!(first.message.quote, Some(Quote::Plain { .. })));
    let sent = state.send_text(5, 2, "hello", Some(1)).unwrap();
    assert_eq!(sent, 101);
    assert_eq!(state.send_edit_request(5, sent, "changed".to_string()), Ok(()));
    let full = state.full_message(u64::from(sent), &plain());
    assert_eq!(full.chat_id, 2);
    assert_eq!(full.message.text, "changed");
    assert!(full.is_edited);
    match full.message.quote {
        Some(Quote::WithMessage { message_id, text, author }) => {
            assert_eq!(message_id, 1);
            assert_eq!(text, "message 1");
            assert_eq!(author, "Ada Lovelace");
        }
        _ => panic!("the quote is not the message it points at"),
    }
    // Read as somebody else's, unless a test asks otherwise.
    assert_eq!(full.message.from_id, 10);
    let own = MessageKnobs { info_first: false, wordy: false, self_sent: true, held_back: None };
    assert_eq!(state.full_message(u64::from(sent), &own).message.from_id, 1);
}

#[test]
fn a_held_back_message_is_available_until_it_is_fetched() {
    let mut state = seeded();
    let knobs = MessageKnobs { info_first: false, wordy: false, self_sent: false, held_back: Some(2) };
    assert!(state.full_message(2, &knobs).download_available);
    assert!(!state.full_message(1, &knobs).download_available);
    state.download_full_message(3, 2);
    assert!(!state.full_message(2, &knobs).download_available);
    assert_eq!(
        state.take_events(),
        vec![QueuedEvent { context_id: 3, event: FakeEvent::MsgsChanged { chat_id: 1, msg_id: 2 } }]
    );
}

#[test]
fn an_edit_is_refused_when_empty_or_failing() {
    let mut state = seeded();
    assert_eq!(state.send_edit_request(1, 1, "  \n".to_string()), Err(EMPTY_EDIT));
    assert_eq!(state.send_edit_request(1, 1, "please fail".to_string()), Err("could not send"));
    assert!(state.take_events().is_empty());
    assert!(!state.full_message(1, &plain()).is_edited);
}

#[test]
fn a_failing_send_is_reported_as_an_error_event() {
    let mut state = seeded();
    assert_eq!(state.send_text(4, 1, "fail now", None), Err("could not send"));
    assert_eq!(state.take_events(), vec![QueuedEvent { context_id: 4, event: FakeEvent::SendFailed }]);
    assert_eq!(state.chats.messages_of(1), Some(vec![1, 2]));
}

#[test]
fn a_send_moves_its_chat_to_the_top_and_is_announced() {
    let mut state = seeded();
    let id = state.send_text(4, 2, "hi", None).unwrap();
    assert_eq!(state.chats.chat_order, vec![2, 1]);
    assert_eq!(state.chats.messages_of(2), Some(vec![10, id]));
    assert_eq!(
        state.take_events(),
        vec![
            QueuedEvent { context_id: 4, event: FakeEvent::IncomingMsg { chat_id: 2, msg_id: id } },
            QueuedEvent { context_id: 4, event: FakeEvent::ChatlistItemChanged { chat_id: 2 } },
        ]
    );
}

#[test]
fn a_send_without_a_file_is_refused() {
    let mut state = seeded();
    assert_eq!(state.send_with_file(1, 1, None, "Voice".to_string(), None), Err(NO_FILE));
    let id = state.send_with_file(1, 1, Some("\"/tmp/v.aac\"".to_string()), "Voice".to_string(), None).unwrap();
    let full = state.full_message(u64::from(id), &plain());
    assert_eq!(full.message.view_type, "Voice");
    assert_eq!(full.sent_file, Some("\"/tmp/v.aac\"".to_string()));
    assert_eq!(full.message.from_id, 1);
}

#[test]
fn the_view_type_of_a_sent_file_is_read_off_its_extension() {
    assert_eq!(sent_view_type(true, None), "Text");
    assert_eq!(sent_view_type(false, Some("/tmp/holiday.JPG")), "Image");
    assert_eq!(sent_view_type(false, Some("/tmp/a.png")), "Image");
    assert_eq!(sent_view_type(false, Some("/tmp/checkers.xdc")), "Webxdc");
    assert_eq!(sent_view_type(false, Some("/tmp/notes.pdf")), "File");
    assert_eq!(sent_view_type(false, Some("/tmp/png")), "File");
    assert_eq!(sent_view_type(false, None), "File");
    assert_eq!(view_type_for(false, Some("JPeG")), "Image");
}

#[test]
fn the_unread_run_starts_after_the_last_seen_message() {
    let mut state = seeded();
    assert_eq!(state.first_unread(1), Some(2));
    assert_eq!(state.first_unread(2), None);
    let a = state.send_text(1, 1, "x", None).unwrap();
    let _b = state.send_text(1, 1, "y", None).unwrap();
    assert_eq!(state.first_unread(1), Some(2));
    state.chats.set_messages(1, vec![1, a, 2]);
    assert_eq!(state.first_unread(1), Some(a));
    assert_eq!(state.first_unread(99), None);
}

#[test]
fn fresh_chats_count_their_newest_message() {
    let mut state = seeded();
    state.mark_fresh(1, 2);
    state.mark_fresh(1, 1);
    state.mark_fresh(2, 1);
    assert_eq!(state.fresh_messages(1), vec![2, 10]);
    assert_eq!(state.fresh_messages(2), vec![2]);
    state.mark_noticed(1, 1);
    assert_eq!(state.fresh_messages(1), vec![10]);
    assert_eq!(state.fresh_messages(3), Vec::<u32>::new());
}

#[test]
fn a_chat_list_row_previews_its_draft() {
    let mut state = seeded();
    let talks: Vec<u64> = vec![2];
    let none: Vec<u64> = Vec::new();
    let row = state.chatlist_item(1, 1, &none, &none);
    assert_eq!(row.name, "chat 1");
    assert_eq!(row.summary, "last in 1");
    assert!(row.draft.is_none());
    assert!(row.is_pinned);
    state.set_draft(1, "half a thought".to_string());
    state.set_mute(1, 1, "Forever");
    let row = state.chatlist_item(1, 1, &none, &none);
    assert_eq!(row.summary, "half a thought");
    assert_eq!(row.draft, Some("half a thought".to_string()));
    assert!(row.muted);
    state.set_mute(1, 1, "NotMuted");
    assert!(!state.chatlist_item(1, 1, &none, &none).muted);
    // An empty draft previews nothing.
    state.set_draft(2, String::new());
    let row = state.chatlist_item(1, 2, &talks, &none);
    assert!(row.draft.is_none());
    assert!(row.is_self_talk);
    assert!(!row.is_pinned);
    // An id that is no chat id is nobody's draft.
    assert!(state.chatlist_item(1, 1 << 40, &none, &none).draft.is_none());
}

#[test]
fn status_updates_are_numbered_and_handed_out_after_a_serial() {
    let mut state = seeded();
    assert_eq!(state.send_webxdc_update(1, 14, None), Err(NOT_JSON));
    assert_eq!(state.webxdc_update_count(14), 0);
    state.send_webxdc_update(1, 14, Some("{\"move\":1}".to_string())).unwrap();
    state.send_webxdc_update(1, 14, Some("{\"move\":2}".to_string())).unwrap();
    assert_eq!(state.webxdc_update_count(14), 2);
    let after: Vec<(String, usize)> = state
        .webxdc_updates_after(14, 1)
        .iter()
        .map(|u| (u.payload.clone(), u.serial))
        .collect();
    assert_eq!(after, vec![("{\"move\":2}".to_string(), 2)]);
    assert!(state.webxdc_updates_after(14, 5).is_empty());
    assert_eq!(state.webxdc_updates_after(14, 0).len(), 2);
    assert_eq!(webxdc_summary(0), None);
    assert_eq!(webxdc_summary(2), Some("2 move(s)".to_string()));
    assert_eq!(
        state.take_events(),
        vec![
            QueuedEvent { context_id: 1, event: FakeEvent::WebxdcStatusUpdate { msg_id: 14, serial: 1 } },
            QueuedEvent { context_id: 1, event: FakeEvent::WebxdcStatusUpdate { msg_id: 14, serial: 2 } },
        ]
    );
}

#[test]
fn codes_are_told_apart_as_the_shim_needs() {
    assert_eq!(check_qr("https://i.delta.chat/#ABC"), "askVerifyContact");
    assert_eq!(check_qr("OPENPGP4FPR:ABC"), "askVerifyContact");
    assert_eq!(check_qr("dcaccount:example.org"), "account");
    assert_eq!(check_qr("DCACCOUNT:example.org"), "account");
    assert_eq!(check_qr("DCBACKUP2:one.example"), "backup2");
    assert_eq!(check_qr("DCBACKUP2:toonew.example"), "backupTooNew");
    assert_eq!(check_qr("milk, eggs"), "text");
}

#[test]
fn the_store_and_the_app_hand_out_base64() {
    assert_eq!(http_response("https://store.example/fail"), Err("could not reach the store"));
    assert_eq!(http_response("https://store.example/app").unwrap(), "UEsDBCBhIGZha2UgYXBw");
    assert_eq!(webxdc_blob("assets/app.js").unwrap(), "d2luZG93LnBsYXlpbmcgPSB0cnVlCg");
    assert_eq!(webxdc_blob("missing.png"), Err("no such file in the webxdc"));
}

#[test]
fn media_are_listed_by_kind_in_increasing_order() {
    let mut state = State::new();
    state.seed_chats(&SeedKnobs { long_chat: None, media: true, no_archived: false, reacted: false });
    let wanted = vec!["Image".to_string(), "Video".to_string()];
    assert_eq!(state.chat_media(None, &wanted), vec![10, 15]);
    assert_eq!(state.chat_media(Some(1), &wanted), Vec::<u32>::new());
    let apps = vec!["Webxdc".to_string()];
    let sent = state.send_text(1, 1, "app", None).unwrap();
    state.remember_sent_file(sent, "\"/tmp/x.xdc\"".to_string(), "Webxdc".to_string());
    assert_eq!(state.chat_media(None, &apps), vec![14, sent]);
}

#[test]
fn a_search_ignores_case_and_can_keep_to_one_chat() {
    let state = seeded();
    assert_eq!(state.search("MESSAGE 1", None), vec![1, 10]);
    assert_eq!(state.search("message 1", Some(2)), vec![10]);
    assert_eq!(state.search("", None), Vec::<u32>::new());
}

#[test]
fn day_markers_stand_before_each_days_first_message() {
    let state = seeded();
    let items = state.message_list_items(1, true);
    assert_eq!(items.len(), 4);
    assert!(matches!(items[0], ListItem::DayMarker { .. }));
    assert!(matches!(items[1], ListItem::Message { msg_id: 1 }));
    assert!(matches!(items[2], ListItem::DayMarker { .. }));
    assert!(matches!(items[3], ListItem::Message { msg_id: 2 }));
    let bare = state.message_list_items(1, false);
    assert_eq!(bare.len(), 2);
}

#[test]
fn groups_are_renamed_only_while_the_account_is_in_them() {
    let mut state = seeded();
    assert_eq!(state.set_chat_name(1, 2, String::new()), Err("Invalid name"));
    assert_eq!(state.set_chat_name(1, 1, "x".to_string()), Err("Failed to set name"));
    assert_eq!(state.set_chat_name(1, 2, "Friends".to_string()), Ok(()));
    assert_eq!(state.full_chat(2).name, "Friends");
    state.leave_group(1, 2);
    let chat = state.full_chat(2);
    assert!(!chat.self_in_group);
    assert!(!chat.can_send);
    assert_eq!(chat.members, vec![10]);
    assert_eq!(state.set_chat_name(1, 2, "Again".to_string()), Err("Failed to set name"));
    assert_eq!(state.full_chat(1).members, vec![10]);
}

#[test]
fn a_transport_call_stopped_meanwhile_ends_in_failure() {
    let mut state = State::new();
    state.accounts.seed(&[1]);
    assert_eq!(state.transport_begin(1, "dcaccount:slow.example"), Ok(true));
    assert_eq!(
        state.transport_begin(1, "dcaccount:other.example"),
        Err("There is already another ongoing process running.")
    );
    state.accounts.stop_ongoing_process(1);
    assert_eq!(state.transport_end(1, "dcaccount:slow.example"), Err("Configuration was stopped"));
    // A second call on the account is taken now, and a quick one ends in
    // the account configured.
    assert_eq!(state.transport_begin(1, "dcaccount:quick.example"), Ok(false));
    assert_eq!(state.transport_end(1, "dcaccount:quick.example"), Ok(()));
    assert_eq!(state.take_events().len(), 2);
    assert_eq!(state.transport_begin(1, "dcaccount:fail.example"), Err("cannot resolve chatmail server"));
}

#[test]
fn an_import_reports_its_progress() {
    let mut state = State::new();
    assert_eq!(state.import_begin(2, "/tmp/fail-backup.tar"), Err("backup could not be read"));
    assert_eq!(state.import_begin(2, "/tmp/holiday-backup.tar"), Ok(false));
    assert_eq!(state.import_end(2, "/tmp/holiday-backup.tar"), Ok(()));
    let progress: Vec<FakeEvent> = state.take_events().iter().map(|e| e.event).collect();
    assert_eq!(
        progress,
        vec![
            FakeEvent::ImexProgress { progress: 300 },
            FakeEvent::ImexProgress { progress: 1000 },
            FakeEvent::ConfigureProgress { progress: 300 },
            FakeEvent::ConfigureProgress { progress: 1000 },
        ]
    );
    assert_eq!(state.import_begin(2, "DCBACKUP2:slow.example"), Ok(true));
    state.accounts.stop_ongoing_process(2);
    assert_eq!(state.import_end(2, "DCBACKUP2:slow.example"), Err("Transfer was stopped"));
}

#[test]
fn a_mailbox_needs_an_address_and_a_password() {
    let mut state = State::new();
    assert_eq!(
        state.add_or_update_transport(1, "", Some("pw")),
        Err("invalid params: addr and password are required")
    );
    assert_eq!(
        state.add_or_update_transport(1, "a@example.org", Some("")),
        Err("invalid params: addr and password are required")
    );
    assert_eq!(state.add_or_update_transport(1, "fail@example.org", Some("pw")), Err("could not connect to server"));
    assert_eq!(state.add_or_update_transport(1, "a@example.org", Some("pw")), Ok(()));
}

#[test]
fn a_deletion_estimate_counts_what_is_older_than_the_period() {
    let state = seeded();
    // Every seeded message is older than a day before now.
    assert_eq!(state.estimate_deletions(1_800_000_000, 86_400), 4);
    // Before the first message was sent, nothing is older.
    assert_eq!(state.estimate_deletions(1_699_000_000, 0), 0);
    // Between the two seeded days, only the first message is.
    assert_eq!(state.estimate_deletions(1_700_050_000, 0), 1);
    // The subtraction saturates rather than wrapping.
    assert_eq!(state.estimate_deletions(i64::MIN, i64::MAX), 0);
}

#[test]
fn deleted_messages_leave_every_chat() {
    let mut state = seeded();
    state.delete_messages(1, &vec![2, 10, 99]);
    assert_eq!(state.chats.messages_of(1), Some(vec![1]));
    assert_eq!(state.chats.messages_of(2), Some(Vec::new()));
    assert_eq!(state.chats.messages_of(3), Some(vec![30]));
}

#[test]
fn contacts_are_asked_for_by_id() {
    let mut state = seeded();
    let found: Vec<u32> = state.contacts_by_ids(&vec![11, 99, 1, 10]).iter().map(|c| c.id).collect();
    assert_eq!(found, vec![11, 1, 10]);
    assert_eq!(state.contact(99).err(), Some("contact not found"));
    state.change_contact_name(1, 11, "Amazing Grace".to_string());
    assert_eq!(state.contact(11).unwrap().display_name, "Amazing Grace");
    state.change_contact_name(1, 11, String::new());
    assert_eq!(state.contact(11).unwrap().display_name, "grace");
}

#[test]
fn only_the_cut_message_has_html() {
    assert_eq!(message_html(11), Some(LONG_MESSAGE_HTML));
    assert_eq!(message_html(1), None);
    assert!(LONG_MESSAGE_HTML.contains("milk<br/>\nbread<br/>\n"));
}

#[test]
fn accounts_are_added_selected_and_removed() {
    let mut state = State::new();
    state.accounts.seed(&[4, 1 << 40, 6]);
    assert_eq!(state.accounts.add_account(), 3);
    assert_eq!(state.accounts.selected, Some(3));
    assert!(state.accounts.select_account(6));
    assert!(!state.accounts.select_account(9));
    state.accounts.remove_account(6);
    assert_eq!(state.accounts.selected, Some(4));
    let kinds: Vec<(u32, bool)> = state
        .accounts
        .account_list()
        .iter()
        .map(|profile| match profile {
            ListedProfile::Configured { id, .. } => (*id, true),
            ListedProfile::Unconfigured { id } => (*id, false),
        })
        .collect();
    assert_eq!(kinds, vec![(4, true), (3, false)]);
}

#[test]
fn a_day_marker_lies_near_its_instant() {
    for at in [1_700_000_000i64, 1_700_090_000, 0, -1, EARLIEST_MARKED, LATEST_MARKED] {
        let start = day_start(at);
        assert!(at - 3 * DAY < start && start < at + 2 * DAY, "{at} gave {start}");
    }
}

#[test]
fn each_answer_of_the_clock_gives_its_marker() {
    assert_eq!(day_start_from(1_700_000_000, LocalDay::Midnight(1_699_920_000)), 1_699_920_000);
    assert_eq!(day_start_from(1_700_000_000, LocalDay::NoMidnight), 1_700_000_000);
    assert_eq!(day_start_from(1_700_000_000, LocalDay::Unmapped), 1_699_920_000);
    assert_eq!(day_start_from(-1, LocalDay::Unmapped), -86_400);
}

#[test]
fn base64_has_no_padding_and_four_characters_per_three_bytes() {
    assert_eq!(base64(b""), "");
    assert_eq!(base64(b"f"), "Zg");
    assert_eq!(base64(b"fo"), "Zm8");
    assert_eq!(base64(b"foo"), "Zm9v");
    assert_eq!(base64(b"foob"), "Zm9vYg");
    assert_eq!(base64(b"fooba"), "Zm9vYmE");
    assert_eq!(base64(b"foobar"), "Zm9vYmFy");
    assert_eq!(base64(&[0xff, 0xfe, 0xfd, 0xfc]), "//79/A");
}
