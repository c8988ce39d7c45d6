//! Everything the double keeps, and what each call it answers does to it.
//! The wire, the clock, the environment and the waiting stay outside: each
//! call here takes what they gave as plain values.

use std::collections::{BTreeMap, BTreeSet, VecDeque};

use vstd::prelude::*;

use super::accounts::{
    check_mailbox, configure_events, configured_now, AccountBook, MailboxVerdict, ALREADY_RUNNING, CONFIGURATION_STOPPED,
    MAILBOX_INVALID, MAILBOX_UNREACHABLE, TRANSFER_STOPPED, UNREADABLE_BACKUP, UNRESOLVED_RELAY,
};
use super::chats::{holder, lookup, older_total, search_hits, without, without_any, ChatBook};
use super::days::{day_start, near_day_of};
use super::events::{FakeEvent, QueuedEvent, SEND_FAILURE};
use super::input::{should_fail, FAIL_MARKER};
use super::messages::{
    message_object, message_timestamp, sent_at, seeded_quote, STATE_IN_SEEN, seeded_text, seeded_view_type, words_of, wordy, Quote, SeededMessage, ADA, SELF,
};
use super::people::{
    address_of, card_of, members_or_none, ContactCard, Known, PeopleBook, ADA_ADDRESS, GRACE, GRACE_ADDRESS, INVALID_NAME,
    PICTURE_REFUSED, RENAME_REFUSED, SELF_ADDRESS,
};
use super::reactions::{summarises, texts_of, ReactionBook, ReactionSummary};
use super::webxdc::{archive_file, base64, base64_text, webxdc_file};
use crate::idset::{contains_id, increasing, insert_id, remove_id};
use crate::text::{
    contains, decimal, eq_ignore_ascii_case, has_prefix, has_substring, lowercase, same_ignoring_ascii_case, same_text,
    starts_with, to_lowercase, trim, trimmed, with_number,
};

verus! {

/// What a test asked of the seeded chats, through the environment.
pub struct SeedKnobs {
    /// How long the first chat is to be; taken when more than two.
    pub long_chat: Option<u32>,
    /// The group also holds a file, a voice message, an app and a video.
    pub media: bool,
    /// The archive is empty.
    pub no_archived: bool,
    /// Ada has reacted to the first message.
    pub reacted: bool,
}

/// The long first chat asked for, when it is long enough to count.
pub open spec fn long_chat(knobs: SeedKnobs) -> Option<u32> {
    match knobs.long_chat {
        Some(n) => if n > 2 {
            Some(n)
        } else {
            None
        },
        None => None,
    }
}

/// The first chat's messages: ids 1 up to its length, or 1 and 2.
pub open spec fn first_chat(knobs: SeedKnobs) -> Seq<u32> {
    match long_chat(knobs) {
        Some(n) => Seq::new(n as nat, |i: int| (i + 1) as u32),
        None => seq![1u32, 2u32],
    }
}

/// The group's messages: a picture, and one of each other kind when asked.
pub open spec fn group_chat(knobs: SeedKnobs) -> Seq<u32> {
    if knobs.media {
        seq![10u32, 12u32, 13u32, 14u32, 15u32]
    } else {
        seq![10u32]
    }
}

/// The seeded chats, by id.
pub open spec fn seeded_chat(knobs: SeedKnobs, chat: u32) -> Option<Seq<u32>> {
    if chat == 1 {
        Some(first_chat(knobs))
    } else if chat == 2 {
        Some(group_chat(knobs))
    } else if chat == 3 {
        Some(seq![30u32])
    } else {
        None
    }
}

/// The next message id after seeding: above whatever the seeded chats use.
pub open spec fn seeded_next_message(knobs: SeedKnobs) -> u32 {
    match long_chat(knobs) {
        Some(n) => if n > 100 {
            n
        } else {
            100
        },
        None => 100,
    }
}

/// The thumbs-up Ada reacts with.
pub const THUMBS_UP: &'static str = "👍";

/// What is kept per chat besides its messages.
pub struct ChatNotes {
    /// Seconds after which a chat's messages disappear, by chat.
    pub timers: BTreeMap<u32, u32>,
    /// The unsent text each chat holds.
    pub drafts: BTreeMap<u32, String>,
    /// Chats muted from the list.
    pub muted: BTreeSet<u32>,
    /// Chats with an unread message, by account, in increasing order.
    pub fresh: BTreeMap<u32, Vec<u32>>,
}

/// What a message sent with a file carried.
pub struct SentFile {
    /// The file as it was given, written as JSON.
    pub file: String,
    pub view_type: String,
}

/// What is kept per message besides where it is.
pub struct MessageNotes {
    /// Messages whose remainder was fetched.
    pub downloaded: BTreeSet<u32>,
    /// Messages sent from here.
    pub sent: BTreeSet<u32>,
    /// Texts changed after sending, by message.
    pub edits: BTreeMap<u32, String>,
    /// The message each sent message quotes, when it quotes one.
    pub quotes: BTreeMap<u32, u32>,
    /// The file and view type of a message sent with one.
    pub sent_files: BTreeMap<u32, SentFile>,
    /// Status updates per app instance, in the order sent.
    pub webxdc_updates: BTreeMap<u32, Vec<StatusUpdate>>,
}

/// All of it.
pub struct State {
    pub accounts: AccountBook,
    pub chats: ChatBook,
    pub people: PeopleBook,
    pub reactions: ReactionBook,
    pub chat_notes: ChatNotes,
    pub message_notes: MessageNotes,
    /// Events waiting to be handed out, oldest first.
    pub events: VecDeque<QueuedEvent>,
}

impl ChatNotes {
    pub open spec fn wf(&self) -> bool {
        forall|account: u32| #[trigger]
            self.fresh@.contains_key(account) ==> increasing(self.fresh@[account]@)
    }
}

impl MessageNotes {
    pub open spec fn wf(&self) -> bool {
        forall|msg: u32| #[trigger] self.webxdc_updates@.contains_key(msg) ==> numbered_from_one(self.webxdc_updates@[msg]@)
    }
}

/// Each update carries its place in the list, counting from 1.
pub open spec fn numbered_from_one(updates: Seq<StatusUpdate>) -> bool {
    forall|i: int| 0 <= i < updates.len() ==> #[trigger] updates[i].serial == i + 1
}

impl State {
    /// The contacts are the two seeded ones, or there are none yet.
    pub open spec fn contacts_seeded_or_none(&self) -> bool {
        let c = self.people.contacts@;
        c.len() == 0 || (c.len() == 2 && c[0].id == ADA && c[0].address@ == ADA_ADDRESS@ && c[1].id == GRACE
            && c[1].address@ == GRACE_ADDRESS@)
    }

    pub open spec fn wf(&self) -> bool {
        &&& self.chats.wf()
        &&& self.reactions.wf()
        &&& self.chat_notes.wf()
        &&& self.message_notes.wf()
        &&& self.contacts_seeded_or_none()
    }

    /// Nothing yet: no accounts, no chats, nobody.
    pub fn new() -> (state: State)
        ensures
            state.wf(),
            state.chats.table().len() == 0,
            state.accounts.accounts@.len() == 0,
            state.events@.len() == 0,
    {
        State {
            accounts: AccountBook::new(),
            chats: ChatBook::new(),
            people: PeopleBook::new(),
            reactions: ReactionBook::new(),
            chat_notes: ChatNotes {
                timers: BTreeMap::new(),
                drafts: BTreeMap::new(),
                muted: BTreeSet::new(),
                fresh: BTreeMap::new(),
            },
            message_notes: MessageNotes {
                downloaded: BTreeSet::new(),
                sent: BTreeSet::new(),
                edits: BTreeMap::new(),
                quotes: BTreeMap::new(),
                sent_files: BTreeMap::new(),
                webxdc_updates: BTreeMap::new(),
            },
            events: VecDeque::new(),
        }
    }

    /// The seeded chats, the first time they are needed: two chats with a
    /// couple of messages each and an archived one, the two known contacts,
    /// and the group. Once there are chats, nothing changes.
    pub fn seed_chats(&mut self, knobs: &SeedKnobs)
        requires
            old(self).wf(),
        ensures
            final(self).wf(),
            old(self).chats.table().len() > 0 ==> *final(self) == *old(self),
            old(self).chats.table().len() == 0 ==> {
                &&& forall|chat: u32| #[trigger] lookup(final(self).chats.table(), chat) == seeded_chat(*knobs, chat)
                &&& final(self).chats.chat_order@ == seq![1u32, 2u32]
                &&& final(self).chats.archived_order@ == (if knobs.no_archived {
                    Seq::<u32>::empty()
                } else {
                    seq![3u32]
                })
                &&& final(self).chats.next_message_id == seeded_next_message(*knobs)
                &&& final(self).chats.next_chat_id == 500
                &&& final(self).people.contacts@.len() == 2
                &&& final(self).people.group_members@.contains_key(2)
                &&& final(self).people.group_members@[2]@ == seq![SELF, ADA]
                &&& forall|chat: u32|
                    chat != 2 && #[trigger] old(self).people.group_members@.contains_key(chat)
                        ==> final(self).people.group_members@[chat] == old(self).people.group_members@[chat]
                &&& final(self).people.group_members@.dom() == old(self).people.group_members@.dom().insert(2)
                &&& final(self).people.contact_names == old(self).people.contact_names
                &&& final(self).people.group_names == old(self).people.group_names
                &&& final(self).people.group_images == old(self).people.group_images
                &&& final(self).people.left_groups == old(self).people.left_groups
                &&& if knobs.reacted {
                    &&& lookup(final(self).reactions.lists(1), ADA) == Some(seq![THUMBS_UP@])
                    &&& forall|c: u32| c != ADA ==> #[trigger] lookup(final(self).reactions.lists(1), c)
                        == lookup(old(self).reactions.lists(1), c)
                    &&& forall|m: u32| m != 1 ==> #[trigger] final(self).reactions.lists(m) == old(self).reactions.lists(m)
                } else {
                    final(self).reactions == old(self).reactions
                }
                &&& final(self).accounts == old(self).accounts
                &&& final(self).chat_notes == old(self).chat_notes
                &&& final(self).message_notes == old(self).message_notes
                &&& final(self).events == old(self).events
            },
    {
        if !self.chats.is_empty() {
            return;
        }
        let long = match knobs.long_chat {
            Some(n) => if n > 2 {
                Some(n)
            } else {
                None
            },
            None => None,
        };
        let mut first: Vec<u32> = Vec::new();
        match long {
            Some(n) => {
                let mut i: u32 = 0;
                while i < n
                    invariant
                        i <= n,
                        first@ == Seq::new(i as nat, |j: int| (j + 1) as u32),
                    decreases n - i,
                {
                    first.push(i + 1);
                    proof {
                        assert(first@ =~= Seq::new((i + 1) as nat, |j: int| (j + 1) as u32));
                    }
                    i = i + 1;
                }
            },
            None => {
                first.push(1);
                first.push(2);
            },
        }
        assert(first@ =~= first_chat(*knobs));
        self.chats.set_messages(1, first);
        let mut group: Vec<u32> = Vec::new();
        group.push(10);
        if knobs.media {
            group.push(12);
            group.push(13);
            group.push(14);
            group.push(15);
        }
        assert(group@ =~= group_chat(*knobs));
        self.chats.set_messages(2, group);
        let mut order: Vec<u32> = Vec::new();
        order.push(1);
        order.push(2);
        self.chats.chat_order = order;
        let mut archived: Vec<u32> = Vec::new();
        archived.push(30);
        self.chats.set_messages(3, archived);
        let mut archived_order: Vec<u32> = Vec::new();
        if !knobs.no_archived {
            archived_order.push(3);
        }
        self.chats.archived_order = archived_order;
        self.chats.next_message_id = match long {
            Some(n) => if n > 100 {
                n
            } else {
                100
            },
            None => 100,
        };
        self.people.seed();
        self.chats.next_chat_id = 500;
        if knobs.reacted {
            let mut thumbs: Vec<String> = Vec::new();
            thumbs.push(THUMBS_UP.to_owned());
            assert(texts_of(thumbs@) =~= seq![THUMBS_UP@]);
            self.reactions.react(1, ADA, thumbs);
        }
        proof {
            assert(self.chats.chat_order@ =~= seq![1u32, 2u32]);
            assert forall|chat: u32| #[trigger] lookup(self.chats.table(), chat) == seeded_chat(*knobs, chat) by {
                assert(lookup(old(self).chats.table(), chat) is None);
            }
        }
    }
}

} // verus!

verus! {

/// What a test asked of messages, through the environment.
pub struct MessageKnobs {
    /// The first message is the core's encryption notice.
    pub info_first: bool,
    /// Messages say enough to wrap.
    pub wordy: bool,
    /// A message sent from here reads as the account's own.
    pub self_sent: bool,
    /// The message the download limit holds back until it is fetched.
    pub held_back: Option<u64>,
}

/// One message with everything the double knows about it laid over the
/// seeded shape.
pub struct FullMessage {
    pub message: SeededMessage,
    /// The chat it is in; 0 for none.
    pub chat_id: u32,
    /// What was sent as its file, written as JSON, in place of the seeded
    /// one.
    pub sent_file: Option<String>,
    pub is_edited: bool,
    /// Its remainder is still to be fetched.
    pub download_available: bool,
    pub reactions: Option<ReactionSummary>,
}

/// Who a quoted message is shown as from.
pub const QUOTED_AUTHOR: &'static str = "Ada Lovelace";

/// The id a message is kept under: its own, or 0 for one too large to be
/// one.
pub open spec fn kept_id(msg: u64) -> u32 {
    if msg <= u32::MAX as u64 {
        msg as u32
    } else {
        0
    }
}

impl State {
    /// One message, as `get_message` and `get_messages` both answer with it:
    /// the seeded shape, the chat it is in, what was sent with it, what its
    /// text was changed to, what it quotes, whether the download limit
    /// holds it back, and its reactions.
    pub fn full_message(&self, msg: u64, knobs: &MessageKnobs) -> (f: FullMessage)
        requires
            self.wf(),
        ensures
            ({
                let id = kept_id(msg);
                let notes = self.message_notes;
                &&& f.message.keeps_seeded(msg, knobs.info_first)
                &&& f.chat_id == holder(self.chats.table(), id)
                &&& f.message.text@ == (if notes.edits@.contains_key(id) {
                    notes.edits@[id]@
                } else {
                    seeded_text(msg, knobs.info_first, knobs.wordy)
                })
                &&& f.is_edited == notes.edits@.contains_key(id)
                &&& f.message.from_id == (if notes.sent_files@.contains_key(id) || (knobs.self_sent
                    && notes.sent@.contains(id)) {
                    SELF
                } else {
                    ADA
                })
                &&& f.message.view_type@ == (if notes.sent_files@.contains_key(id) {
                    notes.sent_files@[id].view_type@
                } else {
                    seeded_view_type(msg)
                })
                &&& match f.sent_file {
                    Some(file) => notes.sent_files@.contains_key(id) && file@ == notes.sent_files@[id].file@,
                    None => !notes.sent_files@.contains_key(id),
                }
                &&& if notes.quotes@.contains_key(id) {
                    match f.message.quote {
                        Some(Quote::WithMessage { message_id, text, author }) => message_id == notes.quotes@[id]
                            && text@ == words_of(notes.quotes@[id] as u64, knobs.wordy) && author@
                            == QUOTED_AUTHOR@,
                        _ => false,
                    }
                } else {
                    seeded_quote(f.message.quote, msg)
                }
                &&& f.download_available == (knobs.held_back == Some(msg) && !notes.downloaded@.contains(id))
                &&& summarises(f.reactions, self.reactions.lists(id))
            }),
    {
        let mut message = message_object(msg, knobs.info_first, knobs.wordy);
        let id: u32 = if msg <= 0xffff_ffff {
            msg as u32
        } else {
            0
        };
        let chat_id = self.chats.chat_of(id);
        let notes = &self.message_notes;
        let sent_file = match notes.sent_files.get(&id) {
            Some(sent) => {
                message.view_type = sent.view_type.clone();
                message.from_id = SELF;
                Some(sent.file.clone())
            },
            None => None,
        };
        if knobs.self_sent && notes.sent.contains(&id) {
            message.from_id = SELF;
        }
        let is_edited = match notes.edits.get(&id) {
            Some(text) => {
                message.text = text.clone();
                true
            },
            None => false,
        };
        match notes.quotes.get(&id) {
            Some(quoted) => {
                message.quote = Some(
                    Quote::WithMessage {
                        message_id: *quoted,
                        text: wordy(*quoted as u64, knobs.wordy),
                        author: QUOTED_AUTHOR.to_owned(),
                    },
                );
            },
            None => {},
        }
        let held_back = match knobs.held_back {
            Some(h) => h == msg,
            None => false,
        };
        let download_available = held_back && !notes.downloaded.contains(&id);
        let reactions = self.reactions.summary(id);
        FullMessage { message, chat_id, sent_file, is_edited, download_available, reactions }
    }
}

} // verus!

verus! {

/// The chats of `account` with an unread message, in increasing order.
pub open spec fn fresh_chats(notes: ChatNotes, account: u32) -> Seq<u32> {
    if notes.fresh@.contains_key(account) {
        notes.fresh@[account]@
    } else {
        Seq::empty()
    }
}

/// The newest message of each of `chats` that holds one, in their order.
pub open spec fn newest_of(chats: Seq<u32>, table: Seq<(u32, Seq<u32>)>) -> Seq<u32>
    decreases chats.len(),
{
    if chats.len() == 0 {
        Seq::empty()
    } else {
        newest_of(chats.drop_last(), table) + match lookup(table, chats.last()) {
            Some(m) => if m.len() > 0 {
                seq![m.last()]
            } else {
                Seq::empty()
            },
            None => Seq::empty(),
        }
    }
}

/// A message is seen, as `message_object` gives its state.
pub open spec fn is_seen(msg: u32) -> bool {
    !(msg == 2 || msg > 100)
}

/// Where the reader left off: the oldest of the messages after the last
/// seen one, walking back from the newest; none when the newest is seen.
pub open spec fn first_unread_of(messages: Seq<u32>) -> Option<u32>
    decreases messages.len(),
{
    if messages.len() == 0 || is_seen(messages.last()) {
        None
    } else {
        match first_unread_of(messages.drop_last()) {
            Some(m) => Some(m),
            None => Some(messages.last()),
        }
    }
}

/// The messages of `chat`, none for a chat there is not.
pub open spec fn messages_in(table: Seq<(u32, Seq<u32>)>, chat: u32) -> Seq<u32> {
    match lookup(table, chat) {
        Some(m) => m,
        None => Seq::empty(),
    }
}

/// What the chat list shows of one chat.
pub struct ChatListItem {
    /// `chat ` and its id.
    pub name: String,
    /// The draft it holds, when it holds a non-empty one.
    pub draft: Option<String>,
    /// The draft when there is one, else `last in ` and its id.
    pub summary: String,
    /// It has an unread message.
    pub fresh: bool,
    pub muted: bool,
    /// It is the chat with oneself.
    pub is_self_talk: bool,
    /// It is the core's device chat.
    pub is_device_talk: bool,
    /// Chat 1 is pinned.
    pub is_pinned: bool,
}

/// Whether `ids` holds `id`.
fn holds(ids: &Vec<u64>, id: u64) -> (yes: bool)
    ensures
        yes == ids@.contains(id),
{
    let n = ids.len();
    let mut i: usize = 0;
    while i < n
        invariant
            n == ids@.len(),
            i <= n,
            forall|j: int| 0 <= j < i ==> ids@[j] != id,
        decreases n - i,
    {
        if ids[i] == id {
            return true;
        }
        i = i + 1;
    }
    false
}

impl ChatNotes {
    /// Take `account`'s fresh chats out to change them.
    fn take_fresh(&mut self, account: u32) -> (chats: Vec<u32>)
        requires
            old(self).wf(),
        ensures
            chats@ == fresh_chats(*old(self), account),
            increasing(chats@),
            final(self).fresh@ == old(self).fresh@.remove(account),
            final(self).timers == old(self).timers,
            final(self).drafts == old(self).drafts,
            final(self).muted == old(self).muted,
    {
        match self.fresh.remove(&account) {
            Some(chats) => chats,
            None => Vec::new(),
        }
    }
}

/// One event about `account`.
fn queued(account: u32, event: FakeEvent) -> (q: QueuedEvent)
    ensures
        q == (QueuedEvent { context_id: account, event }),
{
    QueuedEvent { context_id: account, event }
}

impl State {
    /// The chat was read: it has no unread message any more, as the
    /// `MsgsNoticed` queued says.
    pub fn mark_noticed(&mut self, account: u32, chat: u32)
        requires
            old(self).wf(),
        ensures
            final(self).wf(),
            fresh_chats(final(self).chat_notes, account).to_set() == fresh_chats(old(self).chat_notes, account).to_set().remove(chat),
            forall|a: u32| a != account ==> #[trigger] fresh_chats(final(self).chat_notes, a) == fresh_chats(old(self).chat_notes, a),
            final(self).events@ == old(self).events@.push(queued_spec(account, FakeEvent::MsgsNoticed { chat_id: chat })),
            final(self).chat_notes.timers == old(self).chat_notes.timers,
            final(self).chat_notes.drafts == old(self).chat_notes.drafts,
            final(self).chat_notes.muted == old(self).chat_notes.muted,
            final(self).accounts == old(self).accounts,
            final(self).chats == old(self).chats,
            final(self).people == old(self).people,
            final(self).reactions == old(self).reactions,
            final(self).message_notes == old(self).message_notes,
    {
        let mut chats = self.chat_notes.take_fresh(account);
        remove_id(&mut chats, chat);
        self.chat_notes.fresh.insert(account, chats);
        self.events.push_back(queued(account, FakeEvent::MsgsNoticed { chat_id: chat }));
        proof {
            assert forall|a: u32| a != account implies #[trigger] fresh_chats(self.chat_notes, a) == fresh_chats(old(self).chat_notes, a) by {}
        }
    }

    /// The chat was marked unread from the list: it counts as having an
    /// unread message, and the newest message and the list item are
    /// announced changed.
    pub fn mark_fresh(&mut self, account: u32, chat: u32)
        requires
            old(self).wf(),
        ensures
            final(self).wf(),
            fresh_chats(final(self).chat_notes, account).to_set() == fresh_chats(old(self).chat_notes, account).to_set().insert(chat),
            forall|a: u32| a != account ==> #[trigger] fresh_chats(final(self).chat_notes, a) == fresh_chats(old(self).chat_notes, a),
            final(self).events@ == old(self).events@ + seq![
                queued_spec(account, FakeEvent::MsgsChanged { chat_id: chat, msg_id: 0 }),
                queued_spec(account, FakeEvent::ChatlistItemChanged { chat_id: chat }),
            ],
            final(self).chat_notes.timers == old(self).chat_notes.timers,
            final(self).chat_notes.drafts == old(self).chat_notes.drafts,
            final(self).chat_notes.muted == old(self).chat_notes.muted,
            final(self).accounts == old(self).accounts,
            final(self).chats == old(self).chats,
            final(self).people == old(self).people,
            final(self).reactions == old(self).reactions,
            final(self).message_notes == old(self).message_notes,
    {
        let mut chats = self.chat_notes.take_fresh(account);
        insert_id(&mut chats, chat);
        self.chat_notes.fresh.insert(account, chats);
        self.events.push_back(queued(account, FakeEvent::MsgsChanged { chat_id: chat, msg_id: 0 }));
        self.events.push_back(queued(account, FakeEvent::ChatlistItemChanged { chat_id: chat }));
        proof {
            assert forall|a: u32| a != account implies #[trigger] fresh_chats(self.chat_notes, a) == fresh_chats(old(self).chat_notes, a) by {}
        }
    }

    /// The newest message of each chat of `account` with an unread one, in
    /// chat order: what the profiles page counts.
    pub fn fresh_messages(&self, account: u32) -> (ids: Vec<u32>)
        requires
            self.wf(),
        ensures
            ids@ == newest_of(fresh_chats(self.chat_notes, account), self.chats.table()),
    {
        let mut ids: Vec<u32> = Vec::new();
        let chats = match self.chat_notes.fresh.get(&account) {
            Some(chats) => chats,
            None => {
                return ids;
            },
        };
        let ghost all = chats@;
        let n = chats.len();
        let mut i: usize = 0;
        assert(all.take(0) =~= Seq::<u32>::empty());
        while i < n
            invariant
                n == all.len(),
                all == chats@,
                i <= n,
                self.chats.wf(),
                ids@ == newest_of(all.take(i as int), self.chats.table()),
            decreases n - i,
        {
            let ghost before = ids@;
            match self.chats.messages_of(chats[i]) {
                Some(messages) => {
                    if messages.len() > 0 {
                        ids.push(messages[messages.len() - 1]);
                    }
                },
                None => {},
            }
            proof {
                assert(all.take(i + 1).drop_last() =~= all.take(i as int));
            }
            i = i + 1;
        }
        assert(all.take(n as int) =~= all);
        ids
    }

    /// Where the reader left off in `chat`.
    pub fn first_unread(&self, chat: u32) -> (first: Option<u32>)
        requires
            self.wf(),
        ensures
            first == first_unread_of(messages_in(self.chats.table(), chat)),
    {
        let messages = match self.chats.messages_of(chat) {
            Some(m) => m,
            None => Vec::new(),
        };
        let ghost all = messages@;
        assert(all == messages_in(self.chats.table(), chat));
        let mut first: Option<u32> = None;
        let mut i: usize = messages.len();
        assert(all.take(i as int) =~= all);
        // Walking back from the newest: `first` is the answer for what is
        // after `i`, when that holds no seen message.
        while i > 0
            invariant
                all == messages@,
                all == messages_in(self.chats.table(), chat),
                i <= all.len(),
                forall|j: int| i <= j < all.len() ==> !is_seen(all[j]),
                first_unread_of(all) == match first_unread_of(all.take(i as int)) {
                    Some(m) => Some(m),
                    None => first,
                },
                first is Some <==> i < all.len(),
            decreases i,
        {
            let msg = messages[i - 1];
            let state = message_object(msg as u64, false, false).state;
            proof {
                assert(all.take(i as int).drop_last() =~= all.take(i - 1));
                assert(all.take(i as int).last() == msg);
            }
            if state == STATE_IN_SEEN {
                proof {
                    assert(is_seen(msg));
                    assert(first_unread_of(all.take(i as int)) is None);
                }
                return first;
            }
            first = Some(msg);
            i = i - 1;
        }
        assert(all.take(0) =~= Seq::<u32>::empty());
        first
    }

    /// The text `chat` holds unsent, an empty one included.
    pub fn set_draft(&mut self, chat: u32, text: String)
        ensures
            final(self).chat_notes.drafts@ == old(self).chat_notes.drafts@.insert(chat, text),
            final(self).chat_notes.timers == old(self).chat_notes.timers,
            final(self).chat_notes.muted == old(self).chat_notes.muted,
            final(self).chat_notes.fresh == old(self).chat_notes.fresh,
            final(self).accounts == old(self).accounts,
            final(self).chats == old(self).chats,
            final(self).people == old(self).people,
            final(self).reactions == old(self).reactions,
            final(self).message_notes == old(self).message_notes,
            final(self).events == old(self).events,
    {
        self.chat_notes.drafts.insert(chat, text);
    }

    /// `chat` holds no draft any more.
    pub fn remove_draft(&mut self, chat: u32)
        ensures
            final(self).chat_notes.drafts@ == old(self).chat_notes.drafts@.remove(chat),
            final(self).chat_notes.timers == old(self).chat_notes.timers,
            final(self).chat_notes.muted == old(self).chat_notes.muted,
            final(self).chat_notes.fresh == old(self).chat_notes.fresh,
            final(self).accounts == old(self).accounts,
            final(self).chats == old(self).chats,
            final(self).people == old(self).people,
            final(self).reactions == old(self).reactions,
            final(self).message_notes == old(self).message_notes,
            final(self).events == old(self).events,
    {
        self.chat_notes.drafts.remove(&chat);
    }

    /// The draft `chat` holds, when it holds one.
    pub fn draft(&self, chat: u32) -> (text: Option<String>)
        ensures
            match text {
                Some(t) => self.chat_notes.drafts@.contains_key(chat) && t@ == self.chat_notes.drafts@[chat]@,
                None => !self.chat_notes.drafts@.contains_key(chat),
            },
    {
        match self.chat_notes.drafts.get(&chat) {
            Some(t) => Some(t.clone()),
            None => None,
        }
    }

    /// Messages in `chat` now disappear after `timer` seconds, as the
    /// event queued says.
    pub fn set_ephemeral_timer(&mut self, account: u32, chat: u32, timer: u32)
        ensures
            final(self).chat_notes.timers@ == old(self).chat_notes.timers@.insert(chat, timer),
            final(self).events@ == old(self).events@.push(
                queued_spec(account, FakeEvent::ChatEphemeralTimerModified { chat_id: chat, timer }),
            ),
            final(self).chat_notes.drafts == old(self).chat_notes.drafts,
            final(self).chat_notes.muted == old(self).chat_notes.muted,
            final(self).chat_notes.fresh == old(self).chat_notes.fresh,
            final(self).accounts == old(self).accounts,
            final(self).chats == old(self).chats,
            final(self).people == old(self).people,
            final(self).reactions == old(self).reactions,
            final(self).message_notes == old(self).message_notes,
    {
        self.chat_notes.timers.insert(chat, timer);
        self.events.push_back(queued(account, FakeEvent::ChatEphemeralTimerModified { chat_id: chat, timer }));
    }

    /// Mute `chat`, or unmute it when the duration is `NotMuted`; announced
    /// as a change to the chat.
    pub fn set_mute(&mut self, account: u32, chat: u32, kind: &str)
        requires
            old(self).wf(),
        ensures
            final(self).wf(),
            final(self).chat_notes.muted@ == (if kind@ == NOT_MUTED@ {
                old(self).chat_notes.muted@.remove(chat)
            } else {
                old(self).chat_notes.muted@.insert(chat)
            }),
            final(self).events@ == old(self).events@.push(queued_spec(account, FakeEvent::ChatModified { chat_id: chat })),
            final(self).chat_notes.timers == old(self).chat_notes.timers,
            final(self).chat_notes.drafts == old(self).chat_notes.drafts,
            final(self).chat_notes.fresh == old(self).chat_notes.fresh,
            final(self).accounts == old(self).accounts,
            final(self).chats == old(self).chats,
            final(self).people == old(self).people,
            final(self).reactions == old(self).reactions,
            final(self).message_notes == old(self).message_notes,
    {
        if same_text(kind, NOT_MUTED) {
            self.chat_notes.muted.remove(&chat);
        } else {
            self.chat_notes.muted.insert(chat);
        }
        self.events.push_back(queued(account, FakeEvent::ChatModified { chat_id: chat }));
    }

    /// What the chat list shows of `chat` for `account`, with the chats a
    /// test named as the chat with oneself and as the device chat.
    pub fn chatlist_item(&self, account: u32, chat: u64, self_talk: &Vec<u64>, device_talk: &Vec<u64>) -> (item: ChatListItem)
        requires
            self.wf(),
        ensures
            ({
                let fits = chat <= u32::MAX as u64;
                let c = chat as u32;
                let draft_text = if fits && self.chat_notes.drafts@.contains_key(c) && self.chat_notes.drafts@[c]@.len() > 0 {
                    Some(self.chat_notes.drafts@[c]@)
                } else {
                    None
                };
                &&& item.name@ == "chat "@ + decimal(chat as nat)
                &&& match item.draft {
                    Some(d) => draft_text == Some(d@),
                    None => draft_text is None,
                }
                &&& item.summary@ == match draft_text {
                    Some(d) => d,
                    None => "last in "@ + decimal(chat as nat),
                }
                &&& item.fresh == (fits && fresh_chats(self.chat_notes, account).contains(c))
                &&& item.muted == (fits && self.chat_notes.muted@.contains(c))
                &&& item.is_self_talk == self_talk@.contains(chat)
                &&& item.is_device_talk == device_talk@.contains(chat)
                &&& item.is_pinned == (chat == 1)
            }),
    {
        let fits = chat <= 0xffff_ffff;
        let c = chat as u32;
        let fresh = fits && match self.chat_notes.fresh.get(&account) {
            Some(chats) => contains_id(chats, c),
            None => false,
        };
        let draft = if fits {
            match self.chat_notes.drafts.get(&c) {
                Some(text) => if text.as_str().unicode_len() > 0 {
                    Some(text.clone())
                } else {
                    None
                },
                None => None,
            }
        } else {
            None
        };
        let summary = match &draft {
            Some(text) => text.clone(),
            None => with_number("last in ", chat),
        };
        ChatListItem {
            name: with_number("chat ", chat),
            draft,
            summary,
            fresh,
            muted: fits && self.chat_notes.muted.contains(&c),
            is_self_talk: holds(self_talk, chat),
            is_device_talk: holds(device_talk, chat),
            is_pinned: chat == 1,
        }
    }
}

/// One event about `account`.
pub open spec fn queued_spec(account: u32, event: FakeEvent) -> QueuedEvent {
    QueuedEvent { context_id: account, event }
}

/// The mute duration that unmutes.
pub const NOT_MUTED: &'static str = "NotMuted";

} // verus!

verus! {

/// An edit to nothing is refused with this.
pub const EMPTY_EDIT: &'static str = "Edited text cannot be empty";

/// A `send_msg` without a file is refused with this.
pub const NO_FILE: &'static str = "send_msg without a file is not what the app sends";

/// A status update that is not JSON is refused with this.
pub const NOT_JSON: &'static str = "the update is not JSON";

/// One status update an app sent, numbered from 1.
pub struct StatusUpdate {
    /// What it carried, written as JSON.
    pub payload: String,
    pub serial: usize,
}

/// What the view type of a sent file is read off: its extension, without
/// regard to case.
pub open spec fn view_type_from(file_is_null: bool, extension: Option<Seq<char>>) -> Seq<char> {
    if file_is_null {
        "Text"@
    } else {
        match extension {
            Some(e) => if same_ignoring_ascii_case(e, "png"@) || same_ignoring_ascii_case(e, "jpg"@)
                || same_ignoring_ascii_case(e, "jpeg"@) {
                "Image"@
            } else if same_ignoring_ascii_case(e, "xdc"@) {
                "Webxdc"@
            } else {
                "File"@
            },
            None => "File"@,
        }
    }
}

/// The view type the core gives a message sent with a file whose name has
/// `extension`: a picture, an app, or a file; text when no file was sent.
pub fn view_type_for(file_is_null: bool, extension: Option<&str>) -> (view: &'static str)
    ensures
        view@ == view_type_from(file_is_null, match extension {
            Some(e) => Some(e@),
            None => None,
        }),
{
    proof {
        reveal_strlit("Text");
        reveal_strlit("Image");
        reveal_strlit("Webxdc");
        reveal_strlit("File");
    }
    if file_is_null {
        return "Text";
    }
    match extension {
        Some(e) => {
            if eq_ignore_ascii_case(e, "png") || eq_ignore_ascii_case(e, "jpg") || eq_ignore_ascii_case(e, "jpeg") {
                "Image"
            } else if eq_ignore_ascii_case(e, "xdc") {
                "Webxdc"
            } else {
                "File"
            }
        },
        None => "File",
    }
}

/// The extension of the file `path` names, as `std::path::Path::extension`
/// finds it, read as text.
pub uninterp spec fn path_extension(path: Seq<char>) -> Option<Seq<char>>;

/// Calls `std::path::Path::extension` on `path` and reads the result as
/// text (lossily); what it returns is named by [`path_extension`].
#[verifier::external_body]
fn file_extension(path: &str) -> (extension: Option<String>)
    ensures
        match extension {
            Some(e) => path_extension(path@) == Some(e@),
            None => path_extension(path@) is None,
        },
{
    match std::path::Path::new(path).extension() {
        Some(e) => Some(e.to_string_lossy().into_owned()),
        None => None,
    }
}

/// The view type of a message sent with the file at `path`: read off the
/// file's extension; text when no file was sent, and a file when what was
/// sent is not a path.
pub fn sent_view_type(file_is_null: bool, path: Option<&str>) -> (view: &'static str)
    ensures
        view@ == view_type_from(file_is_null, match path {
            Some(p) => path_extension(p@),
            None => None,
        }),
{
    match path {
        Some(p) => {
            let extension = file_extension(p);
            match extension {
                Some(e) => view_type_for(file_is_null, Some(e.as_str())),
                None => view_type_for(file_is_null, None),
            }
        },
        None => view_type_for(file_is_null, None),
    }
}

/// Where a quote points: a message id that fits, and is not 0.
pub open spec fn quoted_id(quoted: Option<u64>) -> Option<u32> {
    match quoted {
        Some(q) => if 0 < q <= u32::MAX as u64 {
            Some(q as u32)
        } else {
            None
        },
        None => None,
    }
}

/// The updates kept for one app, none when it has sent none.
pub open spec fn updates_of(notes: MessageNotes, msg: u32) -> Seq<StatusUpdate> {
    if notes.webxdc_updates@.contains_key(msg) {
        notes.webxdc_updates@[msg]@
    } else {
        Seq::empty()
    }
}

impl State {
    /// The rest of message `msg` was fetched, and announced changed.
    pub fn download_full_message(&mut self, account: u32, msg: u32)
        requires
            old(self).wf(),
        ensures
            final(self).wf(),
            final(self).message_notes.downloaded@ == old(self).message_notes.downloaded@.insert(msg),
            final(self).events@ == old(self).events@.push(
                queued_spec(account, FakeEvent::MsgsChanged { chat_id: holder(old(self).chats.table(), msg), msg_id: msg }),
            ),
            final(self).message_notes.sent == old(self).message_notes.sent,
            final(self).message_notes.edits == old(self).message_notes.edits,
            final(self).message_notes.quotes == old(self).message_notes.quotes,
            final(self).message_notes.sent_files == old(self).message_notes.sent_files,
            final(self).message_notes.webxdc_updates == old(self).message_notes.webxdc_updates,
            final(self).accounts == old(self).accounts,
            final(self).chats == old(self).chats,
            final(self).people == old(self).people,
            final(self).reactions == old(self).reactions,
            final(self).chat_notes == old(self).chat_notes,
    {
        self.message_notes.downloaded.insert(msg);
        let chat = self.chats.chat_of(msg);
        self.events.push_back(queued(account, FakeEvent::MsgsChanged { chat_id: chat, msg_id: msg }));
    }

    /// This account's reactions on `msg`, the whole list at once: none
    /// takes them off. Announced, and answered with the id of the hidden
    /// message that carries them.
    pub fn send_reaction(&mut self, account: u32, msg: u32, emojis: Vec<String>) -> (carrier: u32)
        requires
            old(self).wf(),
            old(self).chats.next_message_id < u32::MAX,
        ensures
            final(self).wf(),
            lookup(final(self).reactions.lists(msg), SELF) == (if emojis@.len() == 0 {
                None
            } else {
                Some(texts_of(emojis@))
            }),
            forall|c: u32| c != SELF ==> #[trigger] lookup(final(self).reactions.lists(msg), c) == lookup(
                old(self).reactions.lists(msg),
                c,
            ),
            forall|m: u32| m != msg ==> #[trigger] final(self).reactions.lists(m) == old(self).reactions.lists(m),
            carrier == old(self).chats.next_message_id + 1,
            final(self).chats.next_message_id == carrier,
            final(self).chats.chats == old(self).chats.chats,
            final(self).chats.chat_order == old(self).chats.chat_order,
            final(self).chats.archived_order == old(self).chats.archived_order,
            final(self).chats.next_chat_id == old(self).chats.next_chat_id,
            final(self).events@ == old(self).events@.push(
                queued_spec(
                    account,
                    FakeEvent::ReactionsChanged {
                        chat_id: holder(old(self).chats.table(), msg),
                        contact_id: SELF,
                        msg_id: msg,
                    },
                ),
            ),
            final(self).accounts == old(self).accounts,
            final(self).people == old(self).people,
            final(self).chat_notes == old(self).chat_notes,
            final(self).message_notes == old(self).message_notes,
    {
        self.reactions.react(msg, SELF, emojis);
        self.chats.next_message_id = self.chats.next_message_id + 1;
        let carrier = self.chats.next_message_id;
        let chat = self.chats.chat_of(msg);
        self.events.push_back(queued(account, FakeEvent::ReactionsChanged { chat_id: chat, contact_id: SELF, msg_id: msg }));
        carrier
    }

    /// A message's reactions as the real core reports them.
    pub fn reactions_of(&self, msg: u32) -> (summary: Option<ReactionSummary>)
        requires
            self.wf(),
        ensures
            summarises(summary, self.reactions.lists(msg)),
    {
        self.reactions.summary(msg)
    }

    /// A message sent from here: remembered as sent, and what it quotes
    /// when it quotes one.
    fn note_quote(&mut self, msg: u32, quoted: Option<u64>)
        requires
            old(self).wf(),
        ensures
            final(self).wf(),
            final(self).message_notes.sent@ == old(self).message_notes.sent@.insert(msg),
            final(self).message_notes.quotes@ == match quoted_id(quoted) {
                Some(q) => old(self).message_notes.quotes@.insert(msg, q),
                None => old(self).message_notes.quotes@,
            },
            final(self).message_notes.downloaded == old(self).message_notes.downloaded,
            final(self).message_notes.edits == old(self).message_notes.edits,
            final(self).message_notes.sent_files == old(self).message_notes.sent_files,
            final(self).message_notes.webxdc_updates == old(self).message_notes.webxdc_updates,
            final(self).accounts == old(self).accounts,
            final(self).chats == old(self).chats,
            final(self).people == old(self).people,
            final(self).reactions == old(self).reactions,
            final(self).chat_notes == old(self).chat_notes,
            final(self).events == old(self).events,
    {
        self.message_notes.sent.insert(msg);
        match quoted {
            Some(q) => {
                if 0 < q && q <= 0xffff_ffff {
                    self.message_notes.quotes.insert(msg, q as u32);
                }
            },
            None => {},
        }
    }

    /// Send `text` to `chat`, quoting `quoted` when it names a message: a
    /// text standing for a failure is refused, and reported as an `Error`
    /// event; else the message is added and remembered as sent. Its id.
    pub fn send_text(&mut self, account: u32, chat: u32, text: &str, quoted: Option<u64>) -> (sent: Result<u32, &'static str>)
        requires
            old(self).wf(),
            !has_substring(text@, FAIL_MARKER@) ==> old(self).chats.next_message_id < u32::MAX,
        ensures
            final(self).wf(),
            match sent {
                Err(reason) => {
                    &&& has_substring(text@, FAIL_MARKER@)
                    &&& reason == SEND_FAILURE
                    &&& final(self).events@ == old(self).events@.push(queued_spec(account, FakeEvent::SendFailed))
                    &&& final(self).chats == old(self).chats
                    &&& final(self).message_notes == old(self).message_notes
                },
                Ok(id) => {
                    &&& !has_substring(text@, FAIL_MARKER@)
                    &&& added_message(*old(self), *final(self), account, chat, id)
                    &&& final(self).message_notes.sent@ == old(self).message_notes.sent@.insert(id)
                    &&& final(self).message_notes.quotes@ == match quoted_id(quoted) {
                        Some(q) => old(self).message_notes.quotes@.insert(id, q),
                        None => old(self).message_notes.quotes@,
                    }
                    &&& final(self).message_notes.sent_files == old(self).message_notes.sent_files
                },
            },
            final(self).message_notes.downloaded == old(self).message_notes.downloaded,
            final(self).message_notes.edits == old(self).message_notes.edits,
            final(self).message_notes.webxdc_updates == old(self).message_notes.webxdc_updates,
            final(self).accounts == old(self).accounts,
            final(self).people == old(self).people,
            final(self).reactions == old(self).reactions,
            final(self).chat_notes == old(self).chat_notes,
    {
        if should_fail(text) {
            self.events.push_back(queued(account, FakeEvent::SendFailed));
            return Err(SEND_FAILURE);
        }
        let id = self.add_message(account, chat);
        self.note_quote(id, quoted);
        Ok(id)
    }

    /// Add a message to `chat` and queue what announces it.
    fn add_message(&mut self, account: u32, chat: u32) -> (id: u32)
        requires
            old(self).wf(),
            old(self).chats.next_message_id < u32::MAX,
        ensures
            final(self).wf(),
            added_message(*old(self), *final(self), account, chat, id),
            final(self).message_notes == old(self).message_notes,
            final(self).accounts == old(self).accounts,
            final(self).people == old(self).people,
            final(self).reactions == old(self).reactions,
            final(self).chat_notes == old(self).chat_notes,
    {
        let (id, announced) = self.chats.add_message(account, chat);
        let ghost before = self.events@;
        let ghost mid = *self;
        let mut i: usize = 0;
        while i < announced.len()
            invariant
                i <= announced@.len(),
                self.events@ == before + announced@.take(i as int),
                self.accounts == mid.accounts,
                self.chats == mid.chats,
                self.people == mid.people,
                self.reactions == mid.reactions,
                self.chat_notes == mid.chat_notes,
                self.message_notes == mid.message_notes,
            decreases announced@.len() - i,
        {
            self.events.push_back(announced[i]);
            proof {
                assert(announced@.take(i + 1) =~= announced@.take(i as int).push(announced@[i as int]));
            }
            i = i + 1;
        }
        assert(announced@.take(announced@.len() as int) =~= announced@);
        id
    }

    /// What was sent as a message's file, and the view type it was sent as.
    pub fn remember_sent_file(&mut self, msg: u32, file: String, view_type: String)
        ensures
            final(self).message_notes.sent_files@ == old(self).message_notes.sent_files@.insert(
                msg,
                SentFile { file, view_type },
            ),
            final(self).message_notes.downloaded == old(self).message_notes.downloaded,
            final(self).message_notes.sent == old(self).message_notes.sent,
            final(self).message_notes.edits == old(self).message_notes.edits,
            final(self).message_notes.quotes == old(self).message_notes.quotes,
            final(self).message_notes.webxdc_updates == old(self).message_notes.webxdc_updates,
            final(self).accounts == old(self).accounts,
            final(self).chats == old(self).chats,
            final(self).people == old(self).people,
            final(self).reactions == old(self).reactions,
            final(self).chat_notes == old(self).chat_notes,
            final(self).events == old(self).events,
    {
        self.message_notes.sent_files.insert(msg, SentFile { file, view_type });
    }

    /// The other send: a message with a file, of the view type asked for,
    /// quoting `quoted` when it names a message. Refused without a file.
    pub fn send_with_file(
        &mut self,
        account: u32,
        chat: u32,
        file: Option<String>,
        view_type: String,
        quoted: Option<u64>,
    ) -> (sent: Result<u32, &'static str>)
        requires
            old(self).wf(),
            file is Some ==> old(self).chats.next_message_id < u32::MAX,
        ensures
            final(self).wf(),
            match sent {
                Err(reason) => file is None && reason == NO_FILE && *final(self) == *old(self),
                Ok(id) => {
                    &&& file is Some
                    &&& added_message(*old(self), *final(self), account, chat, id)
                    &&& final(self).message_notes.sent_files@ == old(self).message_notes.sent_files@.insert(
                        id,
                        SentFile { file: file.unwrap(), view_type },
                    )
                    &&& final(self).message_notes.sent@ == old(self).message_notes.sent@.insert(id)
                    &&& final(self).message_notes.quotes@ == match quoted_id(quoted) {
                        Some(q) => old(self).message_notes.quotes@.insert(id, q),
                        None => old(self).message_notes.quotes@,
                    }
                    &&& final(self).message_notes.downloaded == old(self).message_notes.downloaded
                    &&& final(self).message_notes.edits == old(self).message_notes.edits
                    &&& final(self).message_notes.webxdc_updates == old(self).message_notes.webxdc_updates
                    &&& final(self).accounts == old(self).accounts
                    &&& final(self).people == old(self).people
                    &&& final(self).reactions == old(self).reactions
                    &&& final(self).chat_notes == old(self).chat_notes
                },
            },
    {
        match file {
            None => Err(NO_FILE),
            Some(file) => {
                let id = self.add_message(account, chat);
                self.remember_sent_file(id, file, view_type);
                self.note_quote(id, quoted);
                Ok(id)
            },
        }
    }

    /// Replace the text of message `msg`: an empty text is refused, and so
    /// is one standing for a failure, as a send is; else the change is
    /// kept and announced.
    pub fn send_edit_request(&mut self, account: u32, msg: u32, text: String) -> (done: Result<(), &'static str>)
        requires
            old(self).wf(),
        ensures
            final(self).wf(),
            match done {
                Err(reason) => *final(self) == *old(self) && if trimmed(text@).len() == 0 {
                    reason == EMPTY_EDIT
                } else {
                    has_substring(text@, FAIL_MARKER@) && reason == SEND_FAILURE
                },
                Ok(()) => {
                    &&& trimmed(text@).len() > 0 && !has_substring(text@, FAIL_MARKER@)
                    &&& final(self).message_notes.edits@ == old(self).message_notes.edits@.insert(msg, text)
                    &&& final(self).events@ == old(self).events@.push(
                        queued_spec(
                            account,
                            FakeEvent::MsgsChanged { chat_id: holder(old(self).chats.table(), msg), msg_id: msg },
                        ),
                    )
                    &&& final(self).message_notes.downloaded == old(self).message_notes.downloaded
                    &&& final(self).message_notes.sent == old(self).message_notes.sent
                    &&& final(self).message_notes.quotes == old(self).message_notes.quotes
                    &&& final(self).message_notes.sent_files == old(self).message_notes.sent_files
                    &&& final(self).message_notes.webxdc_updates == old(self).message_notes.webxdc_updates
                    &&& final(self).accounts == old(self).accounts
                    &&& final(self).chats == old(self).chats
                    &&& final(self).people == old(self).people
                    &&& final(self).reactions == old(self).reactions
                    &&& final(self).chat_notes == old(self).chat_notes
                },
            },
    {
        let trimmed_text = trim(text.as_str());
        if trimmed_text.as_str().unicode_len() == 0 {
            return Err(EMPTY_EDIT);
        }
        if should_fail(text.as_str()) {
            return Err(SEND_FAILURE);
        }
        let chat = self.chats.chat_of(msg);
        self.message_notes.edits.insert(msg, text);
        self.events.push_back(queued(account, FakeEvent::MsgsChanged { chat_id: chat, msg_id: msg }));
        Ok(())
    }

    /// How many status updates app `msg` has sent.
    pub fn webxdc_update_count(&self, msg: u32) -> (count: usize)
        ensures
            count == updates_of(self.message_notes, msg).len(),
    {
        match self.message_notes.webxdc_updates.get(&msg) {
            Some(updates) => updates.len(),
            None => 0,
        }
    }

    /// The status updates of app `msg` after the first `serial`, in the
    /// order they were sent.
    pub fn webxdc_updates_after(&self, msg: u32, serial: u64) -> (after: Vec<StatusUpdate>)
        requires
            self.wf(),
        ensures
            ({
                let all = updates_of(self.message_notes, msg);
                let from = if serial <= usize::MAX as u64 { serial as int } else { 0 };
                &&& after@.len() == if from < all.len() { all.len() - from } else { 0 }
                &&& forall|i: int| 0 <= i < after@.len() ==> #[trigger] after@[i].payload@ == all[from + i].payload@
                    && after@[i].serial == from + i + 1
            }),
    {
        let mut after: Vec<StatusUpdate> = Vec::new();
        let updates = match self.message_notes.webxdc_updates.get(&msg) {
            Some(updates) => updates,
            None => {
                return after;
            },
        };
        let from: usize = if serial <= usize::MAX as u64 {
            serial as usize
        } else {
            0
        };
        let n = updates.len();
        assert(self.message_notes.webxdc_updates@.contains_key(msg));
        let ghost all = updates_of(self.message_notes, msg);
        assert(all == updates@);
        if from >= n {
            return after;
        }
        assert(numbered_from_one(updates@));
        let mut i: usize = from;
        while i < n
            invariant
                n == updates@.len(),
                from <= i <= n,
                after@.len() == i - from,
                numbered_from_one(updates@),
                forall|j: int| 0 <= j < after@.len() ==> #[trigger] after@[j].payload@ == updates@[from + j].payload@
                    && after@[j].serial == from + j + 1,
            decreases n - i,
        {
            let ghost before = after@;
            after.push(StatusUpdate { payload: updates[i].payload.clone(), serial: updates[i].serial });
            proof {
                assert forall|j: int| 0 <= j < after@.len() implies #[trigger] after@[j].payload@ == updates@[from + j].payload@
                    && after@[j].serial == from + j + 1 by {
                    if j < before.len() {
                        assert(after@[j] == before[j]);
                    } else {
                        assert(updates@[i as int].serial == i + 1);
                    }
                }
            }
            i = i + 1;
        }
        assert(after@.len() == all.len() - from);
        after
    }

    /// A status update sent by app `msg`, carrying `payload` when what was
    /// sent was JSON: kept under the next serial, and announced.
    pub fn send_webxdc_update(&mut self, account: u32, msg: u32, payload: Option<String>) -> (done: Result<(), &'static str>)
        requires
            old(self).wf(),
            updates_of(old(self).message_notes, msg).len() < usize::MAX,
        ensures
            final(self).wf(),
            match done {
                Err(reason) => payload is None && reason == NOT_JSON && *final(self) == *old(self),
                Ok(()) => {
                    let serial = updates_of(old(self).message_notes, msg).len() + 1;
                    &&& payload is Some
                    &&& updates_of(final(self).message_notes, msg) == updates_of(old(self).message_notes, msg).push(
                        StatusUpdate { payload: payload.unwrap(), serial: serial as usize },
                    )
                    &&& forall|m: u32| m != msg ==> #[trigger] updates_of(final(self).message_notes, m) == updates_of(
                        old(self).message_notes,
                        m,
                    )
                    &&& final(self).events@ == old(self).events@.push(
                        queued_spec(account, FakeEvent::WebxdcStatusUpdate { msg_id: msg, serial: serial as u64 }),
                    )
                    &&& final(self).message_notes.downloaded == old(self).message_notes.downloaded
                    &&& final(self).message_notes.sent == old(self).message_notes.sent
                    &&& final(self).message_notes.edits == old(self).message_notes.edits
                    &&& final(self).message_notes.quotes == old(self).message_notes.quotes
                    &&& final(self).message_notes.sent_files == old(self).message_notes.sent_files
                    &&& final(self).accounts == old(self).accounts
                    &&& final(self).chats == old(self).chats
                    &&& final(self).people == old(self).people
                    &&& final(self).reactions == old(self).reactions
                    &&& final(self).chat_notes == old(self).chat_notes
                },
            },
    {
        let payload = match payload {
            Some(p) => p,
            None => {
                return Err(NOT_JSON);
            },
        };
        let mut kept = match self.message_notes.webxdc_updates.remove(&msg) {
            Some(updates) => updates,
            None => Vec::new(),
        };
        let serial = kept.len() + 1;
        kept.push(StatusUpdate { payload, serial });
        self.message_notes.webxdc_updates.insert(msg, kept);
        self.events.push_back(queued(account, FakeEvent::WebxdcStatusUpdate { msg_id: msg, serial: serial as u64 }));
        proof {
            assert forall|m: u32| #[trigger] self.message_notes.webxdc_updates@.contains_key(m) implies numbered_from_one(
                self.message_notes.webxdc_updates@[m]@,
            ) by {
                if m != msg {
                    assert(old(self).message_notes.webxdc_updates@.contains_key(m));
                }
            }
            assert forall|m: u32| m != msg implies #[trigger] updates_of(self.message_notes, m) == updates_of(
                old(self).message_notes,
                m,
            ) by {}
        }
        Ok(())
    }
}

/// `after` is `before` with one message added to `chat` under the next id,
/// the chat moved to the top, and the arrival announced.
pub open spec fn added_message(before: State, after: State, account: u32, chat: u32, id: u32) -> bool {
    &&& id == before.chats.next_message_id + 1
    &&& after.chats.next_message_id == id
    &&& lookup(after.chats.table(), chat) == Some(messages_in(before.chats.table(), chat).push(id))
    &&& forall|k: u32| k != chat ==> #[trigger] lookup(after.chats.table(), k) == lookup(before.chats.table(), k)
    &&& after.chats.chat_order@ == seq![chat] + without(before.chats.chat_order@, chat)
    &&& after.chats.archived_order == before.chats.archived_order
    &&& after.chats.next_chat_id == before.chats.next_chat_id
    &&& after.events@ == before.events@ + seq![
        queued_spec(account, FakeEvent::IncomingMsg { chat_id: chat, msg_id: id }),
        queued_spec(account, FakeEvent::ChatlistItemChanged { chat_id: chat }),
    ]
}

} // verus!

verus! {

/// A contact asked for by an id nobody has is refused with this.
pub const CONTACT_NOT_FOUND: &'static str = "contact not found";

/// A store that stands for an unreachable one is refused with this.
pub const STORE_UNREACHABLE: &'static str = "could not reach the store";

/// A file an app does not hold is refused with this.
pub const NO_SUCH_FILE: &'static str = "no such file in the webxdc";

/// A chat as `get_full_chat_by_id` reads it.
pub struct FullChat {
    pub id: u32,
    pub is_group: bool,
    pub name: String,
    pub profile_image: Option<String>,
    pub members: Vec<u32>,
    /// The account is in the group: not once it has left, and a
    /// one-to-one chat is no group it is in at all.
    pub self_in_group: bool,
    pub can_send: bool,
    pub ephemeral_timer: u32,
}

/// A chat as `get_basic_chat_info` reads it.
pub struct BasicChat {
    pub is_group: bool,
    pub name: String,
    pub muted: bool,
}

/// A row of a chat's message list.
pub enum ListItem {
    /// The start of a day, before its first message.
    DayMarker { timestamp: i64 },
    Message { msg_id: u32 },
}

/// The rows of a list of `messages` sent on `days`: with `markers`, each
/// day's first message has the day's marker before it.
pub open spec fn marked_list(messages: Seq<u32>, days: Seq<i64>, markers: bool) -> Seq<ListItem>
    decreases messages.len(),
{
    if messages.len() == 0 {
        Seq::empty()
    } else {
        let n = messages.len() - 1;
        let earlier = marked_list(messages.drop_last(), days.drop_last(), markers);
        let marker = if markers && !(n > 0 && days[n - 1] == days[n]) {
            seq![ListItem::DayMarker { timestamp: days[n] }]
        } else {
            Seq::empty()
        };
        earlier + marker + seq![ListItem::Message { msg_id: messages[n] }]
    }
}

/// A message's row in a message list.
pub open spec fn message_row(msg: u32) -> ListItem {
    ListItem::Message { msg_id: msg }
}

/// A day marker's row in a message list.
pub open spec fn marker_row(timestamp: i64) -> ListItem {
    ListItem::DayMarker { timestamp }
}

/// How many times the day changes from one of `days` to the next.
pub open spec fn day_changes(days: Seq<i64>) -> nat
    decreases days.len(),
{
    if days.len() <= 1 {
        0
    } else {
        day_changes(days.drop_last()) + if days[days.len() - 2] != days.last() {
            1nat
        } else {
            0nat
        }
    }
}

proof fn day_changes_grow(days: Seq<i64>, j: int)
    requires
        0 <= j <= days.len(),
    ensures
        day_changes(days.take(j)) <= day_changes(days),
    decreases days.len(),
{
    if j == days.len() {
        assert(days.take(j) =~= days);
    } else {
        assert(days.take(j) =~= days.drop_last().take(j));
        day_changes_grow(days.drop_last(), j);
    }
}

proof fn marked_positions(messages: Seq<u32>, days: Seq<i64>)
    requires
        messages.len() == days.len(),
    ensures
        marked_list(messages, days, true).len() == messages.len() + (if messages.len() == 0 {
            0
        } else {
            day_changes(days) + 1
        }),
        forall|i: int|
            0 <= i < messages.len() ==> marked_list(messages, days, true)[i + day_changes(days.take(i + 1)) + 1]
                == message_row(#[trigger] messages[i]),
        forall|i: int|
            0 <= i < messages.len() ==> marked_list(messages, days, true)[i + day_changes(days.take(i + 1))]
                == (if i == 0 || days[i - 1] != days[i] {
                marker_row(days[i])
            } else {
                message_row(messages[i - 1])
            }),
    decreases messages.len(),
{
    if messages.len() > 0 {
        let n = messages.len() - 1;
        let m0 = messages.drop_last();
        let d0 = days.drop_last();
        marked_positions(m0, d0);
        let earlier = marked_list(m0, d0, true);
        let items = marked_list(messages, days, true);
        let opens = n == 0 || days[n - 1] != days[n];
        assert(days.take(n + 1) =~= days);
        assert forall|i: int| 0 <= i < n implies #[trigger] days.take(i + 1) == d0.take(i + 1) by {
            assert(days.take(i + 1) =~= d0.take(i + 1));
        }
        if n > 0 {
            assert(days.drop_last()[n - 1] == days[n - 1]);
        }
        assert(earlier.len() == n + (if n == 0 { 0 } else { day_changes(d0) + 1 }));
        assert forall|i: int| 0 <= i < messages.len() implies items[i + day_changes(days.take(i + 1)) + 1]
            == message_row(#[trigger] messages[i]) by {
            if i < n {
                assert(days.take(i + 1) == d0.take(i + 1));
                day_changes_grow(d0, i + 1);
                assert(m0[i] == messages[i]);
                assert(items[i + day_changes(d0.take(i + 1)) + 1] == earlier[i + day_changes(d0.take(i + 1)) + 1]);
            }
        }
        assert forall|i: int| 0 <= i < messages.len() implies items[i + day_changes(days.take(i + 1))] == (if i == 0
            || days[i - 1] != days[i] {
            marker_row(days[i])
        } else {
            message_row(messages[i - 1])
        }) by {
            if i < n {
                assert(days.take(i + 1) == d0.take(i + 1));
                day_changes_grow(d0, i + 1);
                assert(d0[i] == days[i]);
                if i > 0 {
                    assert(d0[i - 1] == days[i - 1]);
                    assert(m0[i - 1] == messages[i - 1]);
                }
                assert(items[i + day_changes(d0.take(i + 1))] == earlier[i + day_changes(d0.take(i + 1))]);
            } else if !opens {
                assert(m0[n - 1] == messages[n - 1]);
                assert(d0.take(n) =~= d0);
                assert(earlier[n - 1 + day_changes(d0.take(n)) + 1] == message_row(m0[n - 1]));
            }
        }
    }
}

/// A day marker stands right before a message exactly when that message
/// opens a day: it is the first, or the one before it was sent on another
/// day. So two messages of one day have no marker between them, there are
/// as many markers as the day changes plus one, and every message is there
/// in its order. Without markers the list is the messages alone.
pub proof fn a_marker_opens_each_day(messages: Seq<u32>, days: Seq<i64>)
    requires
        messages.len() == days.len(),
    ensures
        marked_list(messages, days, true).len() == messages.len() + (if messages.len() == 0 {
            0
        } else {
            day_changes(days) + 1
        }),
        forall|i: int|
            0 <= i < messages.len() ==> marked_list(messages, days, true)[i + day_changes(days.take(i + 1)) + 1]
                == message_row(#[trigger] messages[i]),
        forall|i: int|
            0 <= i < messages.len() ==> marked_list(messages, days, true)[i + day_changes(days.take(i + 1))]
                == (if i == 0 || days[i - 1] != days[i] {
                marker_row(days[i])
            } else {
                message_row(messages[i - 1])
            }),
        marked_list(messages, days, false) == messages.map_values(|m: u32| message_row(m)),
    decreases messages.len(),
{
    marked_positions(messages, days);
    if messages.len() > 0 {
        a_marker_opens_each_day(messages.drop_last(), days.drop_last());
        assert(marked_list(messages, days, false) =~= messages.map_values(|m: u32| message_row(m)));
    } else {
        assert(marked_list(messages, days, false) =~= messages.map_values(|m: u32| message_row(m)));
    }
}

/// `a - b`, held at the bounds of an `i64`, as `i64::saturating_sub` gives it.
pub open spec fn saturating_difference(a: i64, b: i64) -> i64 {
    let d = a - b;
    if d < i64::MIN {
        i64::MIN
    } else if d > i64::MAX {
        i64::MAX
    } else {
        d as i64
    }
}

/// `a - b`, held at the bounds of an `i64`.
fn saturating_sub(a: i64, b: i64) -> (d: i64)
    ensures
        d == saturating_difference(a, b),
{
    if b >= 0 {
        if a >= i64::MIN + b {
            a - b
        } else {
            i64::MIN
        }
    } else {
        if a <= i64::MAX + b {
            a - b
        } else {
            i64::MAX
        }
    }
}

/// The messages of one chat, or of every chat, in chat id order.
pub open spec fn messages_of_chats(table: Seq<(u32, Seq<u32>)>, chat: Option<u32>) -> Seq<u32>
    decreases table.len(),
{
    if table.len() == 0 {
        Seq::empty()
    } else {
        messages_of_chats(table.drop_last(), chat) + if chat is None || chat == Some(table.last().0) {
            table.last().1
        } else {
            Seq::empty()
        }
    }
}

/// The view type a message has: what it was sent as, else the seeded one.
pub open spec fn kept_view_type(notes: MessageNotes, msg: u32) -> Seq<char> {
    if notes.sent_files@.contains_key(msg) {
        notes.sent_files@[msg].view_type@
    } else {
        seeded_view_type(msg as u64)
    }
}

/// Those of `ids` that are a contact: the account's own, or one listed.
pub open spec fn known_ids(contacts: Seq<Known>, ids: Seq<u32>) -> Seq<u32> {
    ids.filter(|id: u32| id == SELF || address_of(contacts, id) is Some)
}

/// `card` is the card of contact `id`: its address, the account's own
/// for the account itself, and its name here when it has one.
pub open spec fn shows_contact(card: ContactCard, id: u32, people: PeopleBook) -> bool {
    &&& card.id == id
    &&& card_of(card, id, if id == SELF {
        SELF_ADDRESS@
    } else {
        address_of(people.contacts@, id).unwrap()
    }, if people.contact_names@.contains_key(id) {
        Some(people.contact_names@[id]@)
    } else {
        None
    })
}

/// `s` is in increasing order, repeats allowed.
pub open spec fn sorted(s: Seq<u32>) -> bool {
    forall|i: int, j: int| 0 <= i <= j < s.len() ==> s[i] <= s[j]
}

/// The rows of a list of `messages` sent on `days`.
pub fn list_with_days(messages: &Vec<u32>, days: &Vec<i64>, markers: bool) -> (items: Vec<ListItem>)
    requires
        messages@.len() == days@.len(),
    ensures
        items@ == marked_list(messages@, days@, markers),
{
    let mut items: Vec<ListItem> = Vec::new();
    let n = messages.len();
    let mut i: usize = 0;
    while i < n
        invariant
            n == messages@.len(),
            n == days@.len(),
            i <= n,
            items@ == marked_list(messages@.take(i as int), days@.take(i as int), markers),
        decreases n - i,
    {
        proof {
            assert(messages@.take(i + 1).drop_last() =~= messages@.take(i as int));
            assert(days@.take(i + 1).drop_last() =~= days@.take(i as int));
        }
        if markers && !(i > 0 && days[i - 1] == days[i]) {
            items.push(ListItem::DayMarker { timestamp: days[i] });
        }
        items.push(ListItem::Message { msg_id: messages[i] });
        proof {
            let m = messages@.take(i + 1);
            let d = days@.take(i + 1);
            assert(marked_list(m, d, markers) =~= marked_list(messages@.take(i as int), days@.take(i as int), markers) + (if markers && !(i > 0 && days@[i - 1] == days@[i as int]) {
                seq![ListItem::DayMarker { timestamp: days@[i as int] }]
            } else {
                Seq::<ListItem>::empty()
            }) + seq![ListItem::Message { msg_id: messages@[i as int] }]);
        }
        i = i + 1;
    }
    proof {
        assert(messages@.take(n as int) =~= messages@);
        assert(days@.take(n as int) =~= days@);
    }
    items
}

/// `ids` in increasing order.
fn sort_ids(ids: Vec<u32>) -> (s: Vec<u32>)
    ensures
        sorted(s@),
        s@.to_multiset() == ids@.to_multiset(),
{
    let mut s: Vec<u32> = Vec::new();
    let n = ids.len();
    let mut i: usize = 0;
    assert(s@ =~= ids@.take(0));
    while i < n
        invariant
            n == ids@.len(),
            i <= n,
            sorted(s@),
            s@.to_multiset() == ids@.take(i as int).to_multiset(),
        decreases n - i,
    {
        let x = ids[i];
        let len = s.len();
        let mut p: usize = 0;
        while p < len && s[p] <= x
            invariant
                len == s@.len(),
                p <= len,
                forall|q: int| 0 <= q < p ==> s@[q] <= x,
            decreases len - p,
        {
            p = p + 1;
        }
        let ghost before = s@;
        s.insert(p, x);
        proof {
            assert(s@ =~= before.insert(p as int, x));
            assert forall|a: int, b: int| 0 <= a <= b < s@.len() implies s@[a] <= s@[b] by {
                if b < p {
                } else if a > p {
                    assert(s@[a] == before[a - 1] && s@[b] == before[b - 1]);
                } else if a < p && b == p {
                } else if a < p {
                    assert(s@[b] == before[b - 1]);
                    assert(before[a] <= before[p as int]);
                } else if a == p && b > p {
                    assert(s@[b] == before[b - 1]);
                    assert(before[p as int] <= before[b - 1]);
                }
            }
            assert(ids@.take(i + 1) =~= ids@.take(i as int).push(x));
            vstd::seq_lib::to_multiset_build(ids@.take(i as int), x);
            vstd::seq_lib::to_multiset_insert(before, p as int, x);
        }
        i = i + 1;
    }
    assert(ids@.take(n as int) =~= ids@);
    s
}

impl State {
    /// A new, empty chat at the top of the list: what a one-to-one chat
    /// and a join both end in.
    pub fn create_chat(&mut self) -> (chat: u32)
        requires
            old(self).wf(),
            old(self).chats.next_chat_id < u32::MAX,
        ensures
            final(self).wf(),
            chat == old(self).chats.next_chat_id + 1,
            final(self).chats.next_chat_id == chat,
            lookup(final(self).chats.table(), chat) == Some(Seq::<u32>::empty()),
            forall|k: u32| k != chat ==> #[trigger] lookup(final(self).chats.table(), k) == lookup(old(self).chats.table(), k),
            final(self).chats.chat_order@ == seq![chat] + old(self).chats.chat_order@,
            final(self).chats.archived_order == old(self).chats.archived_order,
            final(self).chats.next_message_id == old(self).chats.next_message_id,
            final(self).accounts == old(self).accounts,
            final(self).people == old(self).people,
            final(self).reactions == old(self).reactions,
            final(self).chat_notes == old(self).chat_notes,
            final(self).message_notes == old(self).message_notes,
            final(self).events == old(self).events,
    {
        self.chats.create_chat()
    }

    /// A new group with nobody in it, as a new chat at the top of the list.
    pub fn create_group_chat(&mut self) -> (chat: u32)
        requires
            old(self).wf(),
            old(self).chats.next_chat_id < u32::MAX,
        ensures
            final(self).wf(),
            chat == old(self).chats.next_chat_id + 1,
            final(self).chats.next_chat_id == chat,
            lookup(final(self).chats.table(), chat) == Some(Seq::<u32>::empty()),
            forall|k: u32| k != chat ==> #[trigger] lookup(final(self).chats.table(), k) == lookup(old(self).chats.table(), k),
            final(self).chats.chat_order@ == seq![chat] + old(self).chats.chat_order@,
            final(self).people.group_members@.contains_key(chat),
            final(self).people.group_members@[chat]@.len() == 0,
            forall|c: u32| c != chat ==> #[trigger] final(self).people.group_members@.contains_key(c)
                == old(self).people.group_members@.contains_key(c) && (final(self).people.group_members@.contains_key(c)
                ==> final(self).people.group_members@[c] == old(self).people.group_members@[c]),
            final(self).chats.archived_order == old(self).chats.archived_order,
            final(self).chats.next_message_id == old(self).chats.next_message_id,
            final(self).people.contacts == old(self).people.contacts,
            final(self).people.contact_names == old(self).people.contact_names,
            final(self).people.group_names == old(self).people.group_names,
            final(self).people.group_images == old(self).people.group_images,
            final(self).people.left_groups == old(self).people.left_groups,
            final(self).accounts == old(self).accounts,
            final(self).reactions == old(self).reactions,
            final(self).chat_notes == old(self).chat_notes,
            final(self).message_notes == old(self).message_notes,
            final(self).events == old(self).events,
    {
        let chat = self.chats.create_chat();
        self.people.create_group(chat);
        chat
    }

    /// `contact` added to the group `chat`, once, and the change announced.
    pub fn add_contact_to_chat(&mut self, account: u32, chat: u32, contact: u32)
        requires
            old(self).wf(),
        ensures
            final(self).wf(),
            final(self).people.group_members@ == old(self).people.group_members@.insert(
                chat,
                final(self).people.group_members@[chat],
            ),
            final(self).people.group_members@[chat]@ == (if members_or_none(old(self).people.group_members@, chat).contains(contact) {
                members_or_none(old(self).people.group_members@, chat)
            } else {
                members_or_none(old(self).people.group_members@, chat).push(contact)
            }),
            final(self).events@ == old(self).events@.push(queued_spec(account, FakeEvent::ChatModified { chat_id: chat })),
            final(self).people.contacts == old(self).people.contacts,
            final(self).people.contact_names == old(self).people.contact_names,
            final(self).people.group_names == old(self).people.group_names,
            final(self).people.group_images == old(self).people.group_images,
            final(self).people.left_groups == old(self).people.left_groups,
            final(self).accounts == old(self).accounts,
            final(self).chats == old(self).chats,
            final(self).reactions == old(self).reactions,
            final(self).chat_notes == old(self).chat_notes,
            final(self).message_notes == old(self).message_notes,
    {
        self.people.add_member(chat, contact);
        self.events.push_back(queued(account, FakeEvent::ChatModified { chat_id: chat }));
    }

    /// `contact` taken out of the group `chat`; the account leaving when it
    /// is its own. Announced either way.
    pub fn remove_contact_from_chat(&mut self, account: u32, chat: u32, contact: u32)
        requires
            old(self).wf(),
        ensures
            final(self).wf(),
            final(self).people.group_members@ == (if old(self).people.group_members@.contains_key(chat) {
                old(self).people.group_members@.insert(chat, final(self).people.group_members@[chat])
            } else {
                old(self).people.group_members@
            }),
            old(self).people.group_members@.contains_key(chat) ==> final(self).people.group_members@[chat]@
                == without(old(self).people.group_members@[chat]@, contact),
            final(self).people.left_groups@ == (if contact == SELF {
                old(self).people.left_groups@.insert(chat)
            } else {
                old(self).people.left_groups@
            }),
            final(self).events@ == old(self).events@.push(queued_spec(account, FakeEvent::ChatModified { chat_id: chat })),
            final(self).people.contacts == old(self).people.contacts,
            final(self).people.contact_names == old(self).people.contact_names,
            final(self).people.group_names == old(self).people.group_names,
            final(self).people.group_images == old(self).people.group_images,
            final(self).accounts == old(self).accounts,
            final(self).chats == old(self).chats,
            final(self).reactions == old(self).reactions,
            final(self).chat_notes == old(self).chat_notes,
            final(self).message_notes == old(self).message_notes,
    {
        self.people.remove_member(chat, contact);
        self.events.push_back(queued(account, FakeEvent::ChatModified { chat_id: chat }));
    }

    /// The account leaves the group `chat`: out of its members, and in the
    /// groups it has left. Announced.
    pub fn leave_group(&mut self, account: u32, chat: u32)
        requires
            old(self).wf(),
        ensures
            final(self).wf(),
            old(self).people.group_members@.contains_key(chat) ==> final(self).people.group_members@[chat]@
                == without(old(self).people.group_members@[chat]@, SELF),
            final(self).people.group_members@.dom() == old(self).people.group_members@.dom(),
            final(self).people.left_groups@ == old(self).people.left_groups@.insert(chat),
            final(self).events@ == old(self).events@.push(queued_spec(account, FakeEvent::ChatModified { chat_id: chat })),
            final(self).people.contacts == old(self).people.contacts,
            final(self).people.contact_names == old(self).people.contact_names,
            final(self).people.group_names == old(self).people.group_names,
            final(self).people.group_images == old(self).people.group_images,
            final(self).accounts == old(self).accounts,
            final(self).chats == old(self).chats,
            final(self).reactions == old(self).reactions,
            final(self).chat_notes == old(self).chat_notes,
            final(self).message_notes == old(self).message_notes,
    {
        self.remove_contact_from_chat(account, chat, SELF);
    }

    /// A group renamed, and the change announced; refused, in the real
    /// core's words, for an empty name and for a chat that is not a group
    /// the account is in.
    pub fn set_chat_name(&mut self, account: u32, chat: u32, name: String) -> (done: Result<(), &'static str>)
        requires
            old(self).wf(),
        ensures
            final(self).wf(),
            match done {
                Ok(()) => name@.len() > 0 && old(self).people.group_members@.contains_key(chat)
                    && !old(self).people.left_groups@.contains(chat) && final(self).people.group_names@
                    == old(self).people.group_names@.insert(chat, name) && final(self).events@
                    == old(self).events@.push(queued_spec(account, FakeEvent::ChatModified { chat_id: chat })),
                Err(reason) => final(self).people.group_names == old(self).people.group_names
                    && final(self).events == old(self).events && if name@.len() == 0 {
                    reason == INVALID_NAME
                } else {
                    reason == RENAME_REFUSED && (!old(self).people.group_members@.contains_key(chat)
                        || old(self).people.left_groups@.contains(chat))
                },
            },
            final(self).people.contacts == old(self).people.contacts,
            final(self).people.contact_names == old(self).people.contact_names,
            final(self).people.group_members == old(self).people.group_members,
            final(self).people.group_images == old(self).people.group_images,
            final(self).people.left_groups == old(self).people.left_groups,
            final(self).accounts == old(self).accounts,
            final(self).chats == old(self).chats,
            final(self).reactions == old(self).reactions,
            final(self).chat_notes == old(self).chat_notes,
            final(self).message_notes == old(self).message_notes,
    {
        let done = self.people.set_chat_name(chat, name);
        if done.is_ok() {
            self.events.push_back(queued(account, FakeEvent::ChatModified { chat_id: chat }));
        }
        done
    }

    /// A group's picture set from `path`, or taken off for none, and the
    /// change announced; a path standing for a failure is refused.
    pub fn set_chat_profile_image(&mut self, account: u32, chat: u32, path: Option<String>) -> (done: Result<(), &'static str>)
        requires
            old(self).wf(),
        ensures
            final(self).wf(),
            match done {
                Ok(()) => (path is None || !has_substring(path.unwrap()@, FAIL_MARKER@))
                    && final(self).people.group_images@ == (match path {
                        Some(p) => old(self).people.group_images@.insert(chat, p),
                        None => old(self).people.group_images@.remove(chat),
                    }) && final(self).events@ == old(self).events@.push(
                        queued_spec(account, FakeEvent::ChatModified { chat_id: chat }),
                    ),
                Err(reason) => reason == PICTURE_REFUSED && path is Some && has_substring(path.unwrap()@, FAIL_MARKER@)
                    && final(self).people.group_images == old(self).people.group_images && final(self).events
                    == old(self).events,
            },
            final(self).people.contacts == old(self).people.contacts,
            final(self).people.contact_names == old(self).people.contact_names,
            final(self).people.group_members == old(self).people.group_members,
            final(self).people.group_names == old(self).people.group_names,
            final(self).people.left_groups == old(self).people.left_groups,
            final(self).accounts == old(self).accounts,
            final(self).chats == old(self).chats,
            final(self).reactions == old(self).reactions,
            final(self).chat_notes == old(self).chat_notes,
            final(self).message_notes == old(self).message_notes,
    {
        let done = self.people.set_chat_profile_image(chat, path);
        if done.is_ok() {
            self.events.push_back(queued(account, FakeEvent::ChatModified { chat_id: chat }));
        }
        done
    }

    /// A chat as `get_full_chat_by_id` reads it.
    pub fn full_chat(&self, chat: u32) -> (full: FullChat)
        requires
            self.wf(),
        ensures
            ({
                let people = self.people;
                let is_group = people.group_members@.contains_key(chat);
                let left = people.left_groups@.contains(chat);
                &&& full.id == chat
                &&& full.is_group == is_group
                &&& full.name@ == (if people.group_names@.contains_key(chat) {
                    people.group_names@[chat]@
                } else {
                    "chat "@ + decimal(chat as nat)
                })
                &&& match full.profile_image {
                    Some(p) => people.group_images@.contains_key(chat) && p@ == people.group_images@[chat]@,
                    None => !people.group_images@.contains_key(chat),
                }
                &&& full.members@ == (if is_group { people.group_members@[chat]@ } else { seq![ADA] })
                &&& full.self_in_group == (is_group && !left)
                &&& full.can_send == !left
                &&& full.ephemeral_timer == (if self.chat_notes.timers@.contains_key(chat) {
                    self.chat_notes.timers@[chat]
                } else {
                    0
                })
            }),
    {
        let is_group = self.people.is_group(chat);
        let left = self.people.has_left(chat);
        FullChat {
            id: chat,
            is_group,
            name: self.people.chat_name(chat),
            profile_image: match self.people.group_images.get(&chat) {
                Some(p) => Some(p.clone()),
                None => None,
            },
            members: self.people.members_of(chat),
            self_in_group: is_group && !left,
            can_send: !left,
            ephemeral_timer: match self.chat_notes.timers.get(&chat) {
                Some(t) => *t,
                None => 0,
            },
        }
    }

    /// A chat as `get_basic_chat_info` reads it.
    pub fn basic_chat(&self, chat: u32) -> (basic: BasicChat)
        ensures
            basic.is_group == self.people.group_members@.contains_key(chat),
            basic.name@ == (if self.people.group_names@.contains_key(chat) {
                self.people.group_names@[chat]@
            } else {
                "chat "@ + decimal(chat as nat)
            }),
            basic.muted == self.chat_notes.muted@.contains(chat),
    {
        BasicChat {
            is_group: self.people.is_group(chat),
            name: self.people.chat_name(chat),
            muted: self.chat_notes.muted.contains(&chat),
        }
    }

    /// Whether the account can write into `chat`: not into a group it left.
    pub fn can_send(&self, chat: u32) -> (can: bool)
        ensures
            can == !self.people.left_groups@.contains(chat),
    {
        !self.people.has_left(chat)
    }

    /// The cards of those of `ids` there are, in the order asked.
    pub fn contacts_by_ids(&self, ids: &Vec<u32>) -> (cards: Vec<ContactCard>)
        ensures
            cards@.len() == known_ids(self.people.contacts@, ids@).len(),
            forall|i: int| 0 <= i < cards@.len() ==> #[trigger] shows_contact(cards@[i], known_ids(self.people.contacts@, ids@)[i], self.people),
    {
        let ghost contacts = self.people.contacts@;
        let mut cards: Vec<ContactCard> = Vec::new();
        let n = ids.len();
        let mut j: usize = 0;
        assert(known_ids(contacts, ids@.take(0)) =~= Seq::<u32>::empty());
        while j < n
            invariant
                n == ids@.len(),
                j <= n,
                contacts == self.people.contacts@,
                cards@.len() == known_ids(contacts, ids@.take(j as int)).len(),
                forall|i: int| 0 <= i < cards@.len() ==> #[trigger] shows_contact(cards@[i], known_ids(contacts, ids@.take(j as int))[i], self.people),
            decreases n - j,
        {
            let ghost before = cards@;
            let ghost known_before = known_ids(contacts, ids@.take(j as int));
            proof {
                assert(ids@.take(j + 1).drop_last() =~= ids@.take(j as int));
                reveal(Seq::filter);
            }
            match self.people.contact_object(ids[j]) {
                Some(card) => {
                    cards.push(card);
                    proof {
                        let known = known_ids(contacts, ids@.take(j + 1));
                        assert(known =~= known_before.push(ids@[j as int]));
                        assert(shows_contact(cards@[before.len() as int], known[before.len() as int], self.people));
                        assert forall|i: int| 0 <= i < cards@.len() implies #[trigger] shows_contact(cards@[i], known[i], self.people) by {
                            if i < before.len() {
                                assert(cards@[i] == before[i]);
                                assert(known[i] == known_before[i]);
                                assert(shows_contact(before[i], known_before[i], self.people));
                            }
                        }
                    }
                },
                None => {
                    proof {
                        assert(known_ids(contacts, ids@.take(j + 1)) =~= known_before);
                    }
                },
            }
            j = j + 1;
        }
        assert(ids@.take(n as int) =~= ids@);
        cards
    }

    /// One contact by id, the account's own included; refused for an id
    /// nobody has.
    pub fn contact(&self, contact: u32) -> (card: Result<ContactCard, &'static str>)
        ensures
            match card {
                Ok(c) => {
                    &&& (contact == SELF || address_of(self.people.contacts@, contact) is Some)
                    &&& card_of(c, contact, if contact == SELF {
                        SELF_ADDRESS@
                    } else {
                        address_of(self.people.contacts@, contact).unwrap()
                    }, if self.people.contact_names@.contains_key(contact) {
                        Some(self.people.contact_names@[contact]@)
                    } else {
                        None
                    })
                },
                Err(reason) => reason == CONTACT_NOT_FOUND && contact != SELF && address_of(self.people.contacts@, contact) is None,
            },
    {
        match self.people.contact_object(contact) {
            Some(card) => Ok(card),
            None => Err(CONTACT_NOT_FOUND),
        }
    }

    /// A name of the reader's own for a contact, an empty one putting the
    /// contact's own back; announced as any contact change is.
    pub fn change_contact_name(&mut self, account: u32, contact: u32, name: String)
        requires
            old(self).wf(),
        ensures
            final(self).wf(),
            final(self).people.contact_names@ == (if name@.len() == 0 {
                old(self).people.contact_names@.remove(contact)
            } else {
                old(self).people.contact_names@.insert(contact, name)
            }),
            final(self).events@ == old(self).events@.push(queued_spec(account, FakeEvent::ContactsChanged { contact_id: contact })),
            final(self).people.contacts == old(self).people.contacts,
            final(self).people.group_members == old(self).people.group_members,
            final(self).people.group_names == old(self).people.group_names,
            final(self).people.group_images == old(self).people.group_images,
            final(self).people.left_groups == old(self).people.left_groups,
            final(self).accounts == old(self).accounts,
            final(self).chats == old(self).chats,
            final(self).reactions == old(self).reactions,
            final(self).chat_notes == old(self).chat_notes,
            final(self).message_notes == old(self).message_notes,
    {
        self.people.change_contact_name(contact, name);
        self.events.push_back(queued(account, FakeEvent::ContactsChanged { contact_id: contact }));
    }

    /// Messages `ids` deleted from every chat, and the deletion announced.
    pub fn delete_messages(&mut self, account: u32, ids: &Vec<u32>)
        requires
            old(self).wf(),
        ensures
            final(self).wf(),
            final(self).chats.table().len() == old(self).chats.table().len(),
            forall|i: int|
                0 <= i < old(self).chats.table().len() ==> #[trigger] final(self).chats.table()[i] == (
                    old(self).chats.table()[i].0,
                    without_any(old(self).chats.table()[i].1, ids@),
                ),
            final(self).chats.chat_order == old(self).chats.chat_order,
            final(self).chats.archived_order == old(self).chats.archived_order,
            final(self).chats.next_message_id == old(self).chats.next_message_id,
            final(self).chats.next_chat_id == old(self).chats.next_chat_id,
            final(self).events@ == old(self).events@.push(queued_spec(account, FakeEvent::MsgsChanged { chat_id: 0, msg_id: 0 })),
            final(self).accounts == old(self).accounts,
            final(self).people == old(self).people,
            final(self).reactions == old(self).reactions,
            final(self).chat_notes == old(self).chat_notes,
            final(self).message_notes == old(self).message_notes,
    {
        self.chats.delete_messages(ids);
        self.events.push_back(queued(account, FakeEvent::MsgsChanged { chat_id: 0, msg_id: 0 }));
    }

    /// The rows of `chat`'s message list, oldest first, with a marker
    /// before each day's first message when asked; the days are those of
    /// the local time zone, so only how near each lies to its message's
    /// sending time is fixed here.
    pub fn message_list_items(&self, chat: u32, markers: bool) -> (items: Vec<ListItem>)
        requires
            self.wf(),
        ensures
            exists|days: Seq<i64>|
                #![trigger marked_list(messages_in(self.chats.table(), chat), days, markers)]
                {
                    &&& days.len() == messages_in(self.chats.table(), chat).len()
                    &&& items@ == marked_list(messages_in(self.chats.table(), chat), days, markers)
                    &&& markers ==> forall|i: int|
                        0 <= i < days.len() ==> near_day_of(
                            sent_at(messages_in(self.chats.table(), chat)[i] as u64) as int,
                            #[trigger] days[i] as int,
                        )
                },
    {
        let messages = match self.chats.messages_of(chat) {
            Some(m) => m,
            None => Vec::new(),
        };
        let mut days: Vec<i64> = Vec::new();
        let n = messages.len();
        let mut i: usize = 0;
        while i < n
            invariant
                n == messages@.len(),
                i <= n,
                days@.len() == if markers { i as int } else { 0 },
                markers ==> forall|k: int|
                    0 <= k < days@.len() ==> near_day_of(sent_at(messages@[k] as u64) as int, #[trigger] days@[k] as int),
            decreases n - i,
        {
            if markers {
                days.push(day_start(message_timestamp(messages[i] as u64)));
            }
            i = i + 1;
        }
        if !markers {
            let mut j: usize = 0;
            while j < n
                invariant
                    n == messages@.len(),
                    j <= n,
                    days@.len() == j,
                decreases n - j,
            {
                days.push(0);
                j = j + 1;
            }
        }
        let items = list_with_days(&messages, &days, markers);
        assert(messages@ == messages_in(self.chats.table(), chat));
        assert(days@.len() == messages@.len() && items@ == marked_list(messages@, days@, markers));
        items
    }

    /// How many messages a deletion period of `seconds` would take at
    /// `now`: every message older than it, in every chat.
    pub fn estimate_deletions(&self, now: i64, seconds: i64) -> (count: usize)
        ensures
            ({
                let total = older_total(self.chats.table(), saturating_difference(now, seconds));
                count == if total <= usize::MAX { total } else { usize::MAX as nat }
            }),
    {
        self.chats.count_older(saturating_sub(now, seconds))
    }

    /// The events waiting, oldest first; none wait afterwards.
    pub fn take_events(&mut self) -> (batch: Vec<QueuedEvent>)
        ensures
            batch@ == old(self).events@,
            final(self).events@.len() == 0,
            final(self).accounts == old(self).accounts,
            final(self).chats == old(self).chats,
            final(self).people == old(self).people,
            final(self).reactions == old(self).reactions,
            final(self).chat_notes == old(self).chat_notes,
            final(self).message_notes == old(self).message_notes,
    {
        let mut batch: Vec<QueuedEvent> = Vec::new();
        let ghost waiting = self.events@;
        while self.events.len() > 0
            invariant
                batch@ + self.events@ == waiting,
                waiting == old(self).events@,
                self.accounts == old(self).accounts,
                self.chats == old(self).chats,
                self.people == old(self).people,
                self.reactions == old(self).reactions,
                self.chat_notes == old(self).chat_notes,
                self.message_notes == old(self).message_notes,
            decreases self.events@.len(),
        {
            let ghost before = self.events@;
            if let Some(event) = self.events.pop_front() {
                batch.push(event);
                assert(batch@ + self.events@ =~= waiting) by {
                    assert(before =~= seq![before[0]] + self.events@);
                }
            }
        }
        batch
    }

    /// A message arriving late in `chat`: one place before its end.
    pub fn add_late_message(&mut self, account: u32, chat: u32) -> (id: u32)
        requires
            old(self).wf(),
            old(self).chats.next_message_id < u32::MAX,
        ensures
            final(self).wf(),
            id == old(self).chats.next_message_id + 1,
            final(self).chats.next_message_id == id,
            ({
                let before = messages_in(old(self).chats.table(), chat);
                let at = if before.len() > 0 { before.len() - 1 } else { 0 };
                lookup(final(self).chats.table(), chat) == Some(before.insert(at, id))
            }),
            forall|k: u32| k != chat ==> #[trigger] lookup(final(self).chats.table(), k) == lookup(old(self).chats.table(), k),
            final(self).chats.chat_order == old(self).chats.chat_order,
            final(self).chats.archived_order == old(self).chats.archived_order,
            final(self).chats.next_chat_id == old(self).chats.next_chat_id,
            final(self).events@ == old(self).events@.push(queued_spec(account, FakeEvent::IncomingMsg { chat_id: chat, msg_id: id })),
            final(self).accounts == old(self).accounts,
            final(self).people == old(self).people,
            final(self).reactions == old(self).reactions,
            final(self).chat_notes == old(self).chat_notes,
            final(self).message_notes == old(self).message_notes,
    {
        let (id, announced) = self.chats.add_late_message(account, chat);
        self.events.push_back(announced);
        id
    }
}

} // verus!

verus! {

/// What a code held up to the scanner is taken for: an invite, an account
/// to set up, a device offering its profile (one too new to take over when
/// it says so), or plain text.
pub open spec fn qr_kind_of(content: Seq<char>) -> Seq<char> {
    if has_substring(content, "i.delta.chat"@) || has_prefix(content, "OPENPGP4FPR:"@) {
        "askVerifyContact"@
    } else if has_prefix(content, "dcaccount:"@) || has_prefix(content, "DCACCOUNT:"@) {
        "account"@
    } else if has_prefix(content, "DCBACKUP2:"@) {
        if has_substring(content, "toonew"@) {
            "backupTooNew"@
        } else {
            "backup2"@
        }
    } else {
        "text"@
    }
}

/// What a code held up to the scanner is taken for.
pub fn check_qr(content: &str) -> (kind: &'static str)
    ensures
        kind@ == qr_kind_of(content@),
{
    proof {
        reveal_strlit("askVerifyContact");
        reveal_strlit("account");
        reveal_strlit("backupTooNew");
        reveal_strlit("backup2");
        reveal_strlit("text");
    }
    if contains(content, "i.delta.chat") || starts_with(content, "OPENPGP4FPR:") {
        "askVerifyContact"
    } else if starts_with(content, "dcaccount:") || starts_with(content, "DCACCOUNT:") {
        "account"
    } else if starts_with(content, "DCBACKUP2:") {
        if contains(content, "toonew") {
            "backupTooNew"
        } else {
            "backup2"
        }
    } else {
        "text"
    }
}

/// The bytes of the app the store hands out.
pub open spec fn store_app() -> Seq<u8> {
    seq![
        0x50u8, 0x4bu8, 0x03u8, 0x04u8, 0x20u8, 0x61u8, 0x20u8, 0x66u8, 0x61u8, 0x6bu8, 0x65u8, 0x20u8, 0x61u8,
        0x70u8, 0x70u8,
    ]
}

/// Something off the web, fetched by the core: the app the store hands
/// out, base64 as the core encodes a blob; refused for an address standing
/// for an unreachable store.
pub fn http_response(url: &str) -> (blob: Result<String, &'static str>)
    ensures
        match blob {
            Ok(text) => !has_substring(url@, FAIL_MARKER@) && text@ == base64_text(store_app()),
            Err(reason) => has_substring(url@, FAIL_MARKER@) && reason == STORE_UNREACHABLE,
        },
{
    if should_fail(url) {
        return Err(STORE_UNREACHABLE);
    }
    let mut app: Vec<u8> = Vec::new();
    app.push(0x50);
    app.push(0x4b);
    app.push(0x03);
    app.push(0x04);
    app.push(0x20);
    app.push(0x61);
    app.push(0x20);
    app.push(0x66);
    app.push(0x61);
    app.push(0x6b);
    app.push(0x65);
    app.push(0x20);
    app.push(0x61);
    app.push(0x70);
    app.push(0x70);
    assert(app@ =~= store_app());
    Ok(base64(app.as_slice()))
}

/// One file out of the app, base64 as the core encodes it; refused for a
/// file the app does not hold.
pub fn webxdc_blob(path: &str) -> (blob: Result<String, &'static str>)
    ensures
        match blob {
            Ok(text) => archive_file(path@) is Some && text@ == base64_text(archive_file(path@).unwrap()),
            Err(reason) => archive_file(path@) is None && reason == NO_SUCH_FILE,
        },
{
    match webxdc_file(path) {
        Some(bytes) => Ok(base64(bytes.as_slice())),
        None => Err(NO_SUCH_FILE),
    }
}

/// What an app's row says of the updates sent to it: how many moves, or
/// nothing before the first.
pub fn webxdc_summary(sent: usize) -> (summary: Option<String>)
    ensures
        match summary {
            Some(s) => sent > 0 && s@ == decimal(sent as nat) + " move(s)"@,
            None => sent == 0,
        },
{
    if sent == 0 {
        return None;
    }
    let mut text = with_number("", sent as u64);
    text.append(" move(s)");
    proof {
        reveal_strlit("");
        assert(""@ + decimal(sent as nat) =~= decimal(sent as nat));
    }
    Some(text)
}

/// The messages of `chats`' media pages: those of the kinds `wanted`.
pub open spec fn media_in(notes: MessageNotes, wanted: Seq<Seq<char>>, messages: Seq<u32>) -> Seq<u32> {
    messages.filter(|m: u32| wanted.contains(kept_view_type(notes, m)))
}

/// Whether `list` holds `text`.
fn holds_text(list: &Vec<String>, text: &str) -> (yes: bool)
    ensures
        yes == texts_of(list@).contains(text@),
{
    let n = list.len();
    let mut i: usize = 0;
    while i < n
        invariant
            n == list@.len(),
            i <= n,
            forall|j: int| 0 <= j < i ==> list@[j]@ != text@,
        decreases n - i,
    {
        if same_text(list[i].as_str(), text) {
            assert(texts_of(list@)[i as int] == text@);
            return true;
        }
        i = i + 1;
    }
    proof {
        if texts_of(list@).contains(text@) {
            let j = choose|j: int| 0 <= j < texts_of(list@).len() && texts_of(list@)[j] == text@;
            assert(list@[j]@ == text@);
        }
    }
    false
}

impl State {
    /// Queue `announced`, oldest first.
    fn queue_all(&mut self, announced: Vec<QueuedEvent>)
        ensures
            final(self).events@ == old(self).events@ + announced@,
            final(self).accounts == old(self).accounts,
            final(self).chats == old(self).chats,
            final(self).people == old(self).people,
            final(self).reactions == old(self).reactions,
            final(self).chat_notes == old(self).chat_notes,
            final(self).message_notes == old(self).message_notes,
    {
        let ghost before = self.events@;
        let mut i: usize = 0;
        while i < announced.len()
            invariant
                i <= announced@.len(),
                self.events@ == before + announced@.take(i as int),
                self.accounts == old(self).accounts,
                self.chats == old(self).chats,
                self.people == old(self).people,
                self.reactions == old(self).reactions,
                self.chat_notes == old(self).chat_notes,
                self.message_notes == old(self).message_notes,
            decreases announced@.len() - i,
        {
            self.events.push_back(announced[i]);
            proof {
                assert(announced@.take(i + 1) =~= announced@.take(i as int).push(announced@[i as int]));
            }
            i = i + 1;
        }
        assert(announced@.take(announced@.len() as int) =~= announced@);
    }

    /// The view type message `msg` has: what it was sent as, else the
    /// seeded one.
    fn view_type_of(&self, msg: u32) -> (view: String)
        ensures
            view@ == kept_view_type(self.message_notes, msg),
    {
        match self.message_notes.sent_files.get(&msg) {
            Some(sent) => sent.view_type.clone(),
            None => message_object(msg as u64, false, false).view_type,
        }
    }

    /// The ids of the messages of the kinds `wanted`, in one chat or, for
    /// none, in every chat: in increasing order, as the real core answers.
    pub fn chat_media(&self, chat: Option<u32>, wanted: &Vec<String>) -> (ids: Vec<u32>)
        requires
            self.wf(),
        ensures
            sorted(ids@),
            ids@.to_multiset() == media_in(
                self.message_notes,
                texts_of(wanted@),
                messages_of_chats(self.chats.table(), chat),
            ).to_multiset(),
    {
        let ghost table = self.chats.table();
        let mut all: Vec<u32> = Vec::new();
        let n = self.chats.chats.len();
        let mut i: usize = 0;
        assert(table.take(0) =~= Seq::<(u32, Seq<u32>)>::empty());
        while i < n
            invariant
                n == self.chats.chats@.len(),
                table == self.chats.table(),
                i <= n,
                all@ == messages_of_chats(table.take(i as int), chat),
            decreases n - i,
        {
            proof {
                assert(table.take(i + 1).drop_last() =~= table.take(i as int));
            }
            let this = &self.chats.chats[i];
            let included = match chat {
                Some(c) => c == this.id,
                None => true,
            };
            if included {
                let ghost earlier = all@;
                let m = this.messages.len();
                let mut j: usize = 0;
                while j < m
                    invariant
                        m == this.messages@.len(),
                        j <= m,
                        all@ == earlier + this.messages@.take(j as int),
                    decreases m - j,
                {
                    all.push(this.messages[j]);
                    proof {
                        assert(this.messages@.take(j + 1) =~= this.messages@.take(j as int).push(this.messages@[j as int]));
                    }
                    j = j + 1;
                }
                assert(this.messages@.take(m as int) =~= this.messages@);
            }
            i = i + 1;
        }
        assert(table.take(n as int) =~= table);
        let ghost wanted_texts = texts_of(wanted@);
        let mut found: Vec<u32> = Vec::new();
        let k = all.len();
        let mut a: usize = 0;
        assert(media_in(self.message_notes, wanted_texts, all@.take(0)) =~= Seq::<u32>::empty());
        while a < k
            invariant
                k == all@.len(),
                a <= k,
                wanted_texts == texts_of(wanted@),
                found@ == media_in(self.message_notes, wanted_texts, all@.take(a as int)),
            decreases k - a,
        {
            proof {
                assert(all@.take(a + 1).drop_last() =~= all@.take(a as int));
                reveal(Seq::filter);
            }
            let view = self.view_type_of(all[a]);
            if holds_text(wanted, view.as_str()) {
                found.push(all[a]);
            }
            a = a + 1;
        }
        assert(all@.take(k as int) =~= all@);
        sort_ids(found)
    }

    /// The messages a search for `needle` finds, without regard to case:
    /// chat by chat, within one chat when one is named.
    pub fn search(&self, needle: &str, within: Option<u32>) -> (hits: Vec<u32>)
        ensures
            hits@ == search_hits(self.chats.table(), lowercase(needle@), within),
    {
        let lower = to_lowercase(needle);
        self.chats.search_messages(lower.as_str(), within)
    }

    /// The start of a transport call on `account` with `qr`: whether it is a
    /// slow one, or what it is refused with.
    pub fn transport_begin(&mut self, account: u32, qr: &str) -> (begun: Result<bool, &'static str>)
        requires
            old(self).wf(),
        ensures
            final(self).wf(),
            final(self).accounts.accounts == old(self).accounts.accounts,
            final(self).accounts.stopped == old(self).accounts.stopped,
            match begun {
                Ok(slow) => !has_substring(qr@, FAIL_MARKER@) && !old(self).accounts.configuring@.contains(account)
                    && slow == has_substring(qr@, "slow"@)
                    && final(self).accounts.configuring@ == old(self).accounts.configuring@.insert(account),
                Err(reason) => final(self).accounts.configuring == old(self).accounts.configuring && if has_substring(qr@, FAIL_MARKER@) {
                    reason == UNRESOLVED_RELAY
                } else {
                    old(self).accounts.configuring@.contains(account) && reason == ALREADY_RUNNING
                },
            },
            final(self).chats == old(self).chats,
            final(self).people == old(self).people,
            final(self).reactions == old(self).reactions,
            final(self).chat_notes == old(self).chat_notes,
            final(self).message_notes == old(self).message_notes,
            final(self).events == old(self).events,
    {
        self.accounts.begin_process(account, qr, UNRESOLVED_RELAY)
    }

    /// The end of a transport call: stopped, when a slow relay was asked to
    /// stop meanwhile and is not a deaf one; else the account is configured
    /// and its progress queued.
    pub fn transport_end(&mut self, account: u32, qr: &str) -> (done: Result<(), &'static str>)
        requires
            old(self).wf(),
        ensures
            final(self).wf(),
            final(self).accounts.configuring@ == old(self).accounts.configuring@.remove(account),
            final(self).accounts.stopped@ == old(self).accounts.stopped@.remove(account),
            match done {
                Err(reason) => {
                    &&& has_substring(qr@, "slow"@) && !has_substring(qr@, "deaf"@) && old(self).accounts.stopped@.contains(account)
                    &&& reason == CONFIGURATION_STOPPED
                    &&& final(self).accounts.accounts == old(self).accounts.accounts
                    &&& final(self).events == old(self).events
                },
                Ok(()) => {
                    &&& !(has_substring(qr@, "slow"@) && !has_substring(qr@, "deaf"@) && old(self).accounts.stopped@.contains(account))
                    &&& final(self).accounts.accounts@ == configured_now(old(self).accounts.accounts@, account)
                    &&& final(self).events@ == old(self).events@ + configure_events(account)
                },
            },
            final(self).chats == old(self).chats,
            final(self).people == old(self).people,
            final(self).reactions == old(self).reactions,
            final(self).chat_notes == old(self).chat_notes,
            final(self).message_notes == old(self).message_notes,
    {
        if self.accounts.end_process(account, qr) {
            return Err(CONFIGURATION_STOPPED);
        }
        let announced = self.accounts.configure(account);
        self.queue_all(announced);
        Ok(())
    }

    /// The start of an import on `account` from `from`: the code another
    /// device shows, or a backup file. Its first progress is queued.
    pub fn import_begin(&mut self, account: u32, from: &str) -> (begun: Result<bool, &'static str>)
        requires
            old(self).wf(),
        ensures
            final(self).wf(),
            final(self).accounts.accounts == old(self).accounts.accounts,
            final(self).accounts.stopped == old(self).accounts.stopped,
            match begun {
                Ok(slow) => !has_substring(from@, FAIL_MARKER@) && !old(self).accounts.configuring@.contains(account)
                    && slow == has_substring(from@, "slow"@)
                    && final(self).accounts.configuring@ == old(self).accounts.configuring@.insert(account)
                    && final(self).events@ == old(self).events@.push(queued_spec(account, FakeEvent::ImexProgress { progress: 300 })),
                Err(reason) => final(self).accounts.configuring == old(self).accounts.configuring
                    && final(self).events == old(self).events && if has_substring(from@, FAIL_MARKER@) {
                    reason == UNREADABLE_BACKUP
                } else {
                    old(self).accounts.configuring@.contains(account) && reason == ALREADY_RUNNING
                },
            },
            final(self).chats == old(self).chats,
            final(self).people == old(self).people,
            final(self).reactions == old(self).reactions,
            final(self).chat_notes == old(self).chat_notes,
            final(self).message_notes == old(self).message_notes,
    {
        let begun = self.accounts.begin_process(account, from, UNREADABLE_BACKUP);
        if begun.is_ok() {
            self.events.push_back(queued(account, FakeEvent::ImexProgress { progress: 300 }));
        }
        begun
    }

    /// The end of an import: stopped, reported as a failed import, when a
    /// slow one was asked to stop meanwhile and is not deaf; else done, and
    /// the account configured.
    pub fn import_end(&mut self, account: u32, from: &str) -> (done: Result<(), &'static str>)
        requires
            old(self).wf(),
        ensures
            final(self).wf(),
            final(self).accounts.configuring@ == old(self).accounts.configuring@.remove(account),
            final(self).accounts.stopped@ == old(self).accounts.stopped@.remove(account),
            match done {
                Err(reason) => {
                    &&& has_substring(from@, "slow"@) && !has_substring(from@, "deaf"@) && old(self).accounts.stopped@.contains(account)
                    &&& reason == TRANSFER_STOPPED
                    &&& final(self).accounts.accounts == old(self).accounts.accounts
                    &&& final(self).events@ == old(self).events@.push(queued_spec(account, FakeEvent::ImexProgress { progress: 0 }))
                },
                Ok(()) => {
                    &&& !(has_substring(from@, "slow"@) && !has_substring(from@, "deaf"@) && old(self).accounts.stopped@.contains(account))
                    &&& final(self).accounts.accounts@ == configured_now(old(self).accounts.accounts@, account)
                    &&& final(self).events@ == old(self).events@.push(queued_spec(account, FakeEvent::ImexProgress { progress: 1000 }))
                        + configure_events(account)
                },
            },
            final(self).chats == old(self).chats,
            final(self).people == old(self).people,
            final(self).reactions == old(self).reactions,
            final(self).chat_notes == old(self).chat_notes,
            final(self).message_notes == old(self).message_notes,
    {
        if self.accounts.end_process(account, from) {
            self.events.push_back(queued(account, FakeEvent::ImexProgress { progress: 0 }));
            return Err(TRANSFER_STOPPED);
        }
        self.events.push_back(queued(account, FakeEvent::ImexProgress { progress: 1000 }));
        let announced = self.accounts.configure(account);
        self.queue_all(announced);
        Ok(())
    }

    /// A mailbox set up by hand: refused, in the real core's words, without
    /// an address or a password and for a server that cannot be reached;
    /// else the account is configured.
    pub fn add_or_update_transport(&mut self, account: u32, addr: &str, password: Option<&str>) -> (done: Result<(), &'static str>)
        requires
            old(self).wf(),
        ensures
            final(self).wf(),
            ({
                let incomplete = addr@.len() == 0 || password is None || password.unwrap()@.len() == 0;
                match done {
                    Err(reason) => *final(self) == *old(self) && if incomplete {
                        reason == MAILBOX_INVALID
                    } else {
                        has_substring(addr@, FAIL_MARKER@) && reason == MAILBOX_UNREACHABLE
                    },
                    Ok(()) => {
                        &&& !incomplete && !has_substring(addr@, FAIL_MARKER@)
                        &&& final(self).accounts.accounts@ == configured_now(old(self).accounts.accounts@, account)
                        &&& final(self).accounts.selected == old(self).accounts.selected
                        &&& final(self).accounts.config == old(self).accounts.config
                        &&& final(self).accounts.configuring == old(self).accounts.configuring
                        &&& final(self).accounts.stopped == old(self).accounts.stopped
                        &&& final(self).events@ == old(self).events@ + configure_events(account)
                        &&& final(self).chats == old(self).chats
                        &&& final(self).people == old(self).people
                        &&& final(self).reactions == old(self).reactions
                        &&& final(self).chat_notes == old(self).chat_notes
                        &&& final(self).message_notes == old(self).message_notes
                    },
                }
            }),
    {
        match check_mailbox(addr, password) {
            MailboxVerdict::Invalid => Err(MAILBOX_INVALID),
            MailboxVerdict::Unreachable => Err(MAILBOX_UNREACHABLE),
            MailboxVerdict::Usable => {
                let announced = self.accounts.configure(account);
                self.queue_all(announced);
                Ok(())
            },
        }
    }
}

} // verus!
