//! The double's chats: the messages each holds, oldest first, and the two
//! listings they are shown in.

use vstd::prelude::*;

use super::events::{FakeEvent, QueuedEvent};
use super::messages::message_timestamp;
use crate::text::{decimal, has_substring, lowercase};

verus! {

/// One chat and its messages, oldest first.
pub struct Chat {
    pub id: u32,
    pub messages: Vec<u32>,
}

/// The chats as `(id, messages)`, in the order they are kept.
pub open spec fn entries(chats: Seq<Chat>) -> Seq<(u32, Seq<u32>)> {
    chats.map_values(|c: Chat| (c.id, c.messages@))
}

/// The ids are increasing, so each chat is kept once, in id order.
pub open spec fn ids_increasing<V>(e: Seq<(u32, V)>) -> bool {
    forall|i: int, j: int| 0 <= i < j < e.len() ==> e[i].0 < e[j].0
}

/// What is kept under `id`, when anything is: the messages of chat `id`.
pub open spec fn lookup<V>(e: Seq<(u32, V)>, id: u32) -> Option<V>
    decreases e.len(),
{
    if e.len() == 0 {
        None
    } else if e[0].0 == id {
        Some(e[0].1)
    } else {
        lookup(e.drop_first(), id)
    }
}

/// The first chat, in id order, that holds message `msg`; 0 for none.
pub open spec fn holder(e: Seq<(u32, Seq<u32>)>, msg: u32) -> u32
    decreases e.len(),
{
    if e.len() == 0 {
        0
    } else if e[0].1.contains(msg) {
        e[0].0
    } else {
        holder(e.drop_first(), msg)
    }
}

/// In a list kept in id order, an entry is what its id looks up.
pub proof fn lemma_lookup_index<V>(e: Seq<(u32, V)>, i: int)
    requires
        ids_increasing(e),
        0 <= i < e.len(),
    ensures
        lookup(e, e[i].0) == Some(e[i].1),
    decreases e.len(),
{
    if i > 0 {
        assert(e[0].0 < e[i].0);
        lemma_lookup_index(e.drop_first(), i - 1);
    }
}

/// An id that no entry carries looks up nothing.
pub proof fn lemma_lookup_absent<V>(e: Seq<(u32, V)>, id: u32)
    requires
        forall|i: int| 0 <= i < e.len() ==> e[i].0 != id,
    ensures
        lookup(e, id) is None,
    decreases e.len(),
{
    if e.len() > 0 {
        lemma_lookup_absent(e.drop_first(), id);
    }
}

/// In a list kept in id order, an id looks up nothing exactly when no
/// entry carries it.
pub proof fn lemma_lookup_unique<V>(e: Seq<(u32, V)>, id: u32)
    requires
        ids_increasing(e),
    ensures
        lookup(e, id) is None <==> forall|i: int| 0 <= i < e.len() ==> e[i].0 != id,
{
    if exists|i: int| 0 <= i < e.len() && e[i].0 == id {
        let i = choose|i: int| 0 <= i < e.len() && e[i].0 == id;
        lemma_lookup_index(e, i);
    } else {
        lemma_lookup_absent(e, id);
    }
}

/// Where chat `id` is kept, or where it would go.
fn place(chats: &Vec<Chat>, id: u32) -> (at: usize)
    requires
        ids_increasing(entries(chats@)),
    ensures
        at <= chats@.len(),
        forall|j: int| 0 <= j < at ==> chats@[j].id < id,
        forall|j: int| at < j < chats@.len() ==> chats@[j].id > id,
        at < chats@.len() ==> chats@[at as int].id >= id,
{
    let n = chats.len();
    let mut i: usize = 0;
    while i < n && chats[i].id < id
        invariant
            n == chats@.len(),
            i <= n,
            ids_increasing(entries(chats@)),
            forall|j: int| 0 <= j < i ==> chats@[j].id < id,
        decreases n - i,
    {
        i = i + 1;
    }
    proof {
        assert forall|j: int| i < j < n implies chats@[j].id > id by {
            assert(entries(chats@)[i as int].0 < entries(chats@)[j].0);
        }
    }
    i
}

/// The chats, each once and in id order.
pub struct ChatBook {
    pub chats: Vec<Chat>,
    /// Chat ids in display order, most recent first.
    pub chat_order: Vec<u32>,
    /// The archived list, which is disjoint from `chat_order`.
    pub archived_order: Vec<u32>,
    pub next_message_id: u32,
    pub next_chat_id: u32,
}

impl ChatBook {
    pub open spec fn wf(&self) -> bool {
        ids_increasing(entries(self.chats@))
    }

    /// The chats as `(id, messages)`, in id order.
    pub open spec fn table(&self) -> Seq<(u32, Seq<u32>)> {
        entries(self.chats@)
    }

    /// No chats yet.
    pub fn new() -> (book: ChatBook)
        ensures
            book.wf(),
            book.table().len() == 0,
            book.chat_order@.len() == 0,
            book.archived_order@.len() == 0,
            book.next_message_id == 0,
            book.next_chat_id == 0,
    {
        ChatBook {
            chats: Vec::new(),
            chat_order: Vec::new(),
            archived_order: Vec::new(),
            next_message_id: 0,
            next_chat_id: 0,
        }
    }

    /// Whether no chat is kept yet.
    pub fn is_empty(&self) -> (empty: bool)
        ensures
            empty == (self.table().len() == 0),
    {
        self.chats.len() == 0
    }

    /// The messages of chat `id`, oldest first.
    pub fn messages_of(&self, id: u32) -> (messages: Option<Vec<u32>>)
        requires
            self.wf(),
        ensures
            match messages {
                Some(m) => lookup(self.table(), id) == Some(m@),
                None => lookup(self.table(), id) is None,
            },
    {
        let at = place(&self.chats, id);
        proof {
            lemma_lookup_unique(self.table(), id);
        }
        if at < self.chats.len() && self.chats[at].id == id {
            proof {
                lemma_lookup_index(self.table(), at as int);
            }
            Some(self.chats[at].messages.clone())
        } else {
            None
        }
    }

    /// Chat `id` now holds `messages`, whether it was kept before or not.
    pub fn set_messages(&mut self, id: u32, messages: Vec<u32>)
        requires
            old(self).wf(),
        ensures
            final(self).wf(),
            lookup(final(self).table(), id) == Some(messages@),
            forall|k: u32| k != id ==> lookup(final(self).table(), k) == lookup(old(self).table(), k),
            final(self).chat_order == old(self).chat_order,
            final(self).archived_order == old(self).archived_order,
            final(self).next_message_id == old(self).next_message_id,
            final(self).next_chat_id == old(self).next_chat_id,
    {
        let ghost before = self.table();
        let at = place(&self.chats, id);
        let ghost messages_view = messages@;
        if at < self.chats.len() && self.chats[at].id == id {
            self.chats.set(at, Chat { id, messages });
            proof {
                assert(self.table() =~= before.update(at as int, (id, messages_view)));
            }
        } else {
            self.chats.insert(at, Chat { id, messages });
            proof {
                assert(self.table() =~= before.insert(at as int, (id, messages_view)));
            }
        }
        proof {
            let after = self.table();
            assert forall|i: int, j: int| 0 <= i < j < after.len() implies after[i].0 < after[j].0 by {
                if i < at && j < at {
                    assert(after[i] == before[i] && after[j] == before[j]);
                }
            }
            lemma_lookup_index(after, at as int);
            assert forall|k: u32| k != id implies lookup(after, k) == lookup(before, k) by {
                lemma_lookup_unique(after, k);
                lemma_lookup_unique(before, k);
                if exists|i: int| 0 <= i < before.len() && before[i].0 == k {
                    let i = choose|i: int| 0 <= i < before.len() && before[i].0 == k;
                    lemma_lookup_index(before, i);
                    if i < at {
                        lemma_lookup_index(after, i);
                    } else if after.len() > before.len() {
                        assert(after[i + 1] == before[i]);
                        lemma_lookup_index(after, i + 1);
                    } else {
                        assert(i != at);
                        lemma_lookup_index(after, i);
                    }
                } else {
                    assert forall|i: int| 0 <= i < after.len() implies after[i].0 != k by {
                        if i < at {
                            assert(after[i] == before[i]);
                        } else if i == at {
                        } else if after.len() > before.len() {
                            assert(after[i] == before[i - 1]);
                        } else {
                            assert(after[i] == before[i]);
                        }
                    }
                }
            }
        }
    }
}

/// `order` without `chat`.
pub open spec fn without(order: Seq<u32>, chat: u32) -> Seq<u32> {
    order.filter(|c: u32| c != chat)
}

pub fn drop_chat(order: &Vec<u32>, chat: u32) -> (kept: Vec<u32>)
    ensures
        kept@ == without(order@, chat),
{
    let mut kept: Vec<u32> = Vec::new();
    let n = order.len();
    let mut i: usize = 0;
    proof {
        assert(without(order@.subrange(0, 0), chat) =~= Seq::<u32>::empty());
    }
    while i < n
        invariant
            n == order@.len(),
            i <= n,
            kept@ == without(order@.subrange(0, i as int), chat),
        decreases n - i,
    {
        proof {
            assert(order@.subrange(0, i + 1).drop_last() =~= order@.subrange(0, i as int));
            reveal(Seq::filter);
        }
        if order[i] != chat {
            kept.push(order[i]);
        }
        i = i + 1;
    }
    proof {
        assert(order@.subrange(0, n as int) =~= order@);
    }
    kept
}

/// What a search reads a message as: `message ` and its id.
pub open spec fn searched_text(msg: u32) -> Seq<char> {
    "message "@ + decimal(msg as nat)
}

/// The messages of `msgs` a search for `needle` finds, in order.
pub open spec fn found_in(msgs: Seq<u32>, needle: Seq<char>) -> Seq<u32> {
    msgs.filter(|m: u32| needle.len() > 0 && has_substring(searched_text(m), needle))
}

/// The messages a search finds, chat by chat in id order, within one chat
/// when one is named.
pub open spec fn search_hits(e: Seq<(u32, Seq<u32>)>, needle: Seq<char>, within: Option<u32>) -> Seq<u32>
    decreases e.len(),
{
    if e.len() == 0 {
        Seq::empty()
    } else {
        let earlier = search_hits(e.drop_last(), needle, within);
        if within is Some && within.unwrap() != e.last().0 {
            earlier
        } else {
            earlier + found_in(e.last().1, needle)
        }
    }
}

/// How many messages of `msgs` were sent before `cutoff`.
pub open spec fn older_in(msgs: Seq<u32>, cutoff: i64) -> nat {
    msgs.filter(|m: u32| (if m == 1 { 1_700_000_000i64 } else { 1_700_090_000i64 }) < cutoff).len()
}

/// How many messages, in every chat, were sent before `cutoff`.
pub open spec fn older_total(e: Seq<(u32, Seq<u32>)>, cutoff: i64) -> nat
    decreases e.len(),
{
    if e.len() == 0 {
        0
    } else {
        older_total(e.drop_last(), cutoff) + older_in(e.last().1, cutoff)
    }
}

/// The chat names a listing search matches: `chat ` and the id.
pub open spec fn listed_name(chat: u32) -> Seq<char> {
    "chat "@ + decimal(chat as nat)
}

/// What the chat list shows: the archived listing, whatever is asked;
/// for a query, every chat -- archived ones included -- whose name holds
/// it in lowercase; else the ordinary listing.
pub open spec fn listing(ordinary: Seq<u32>, archived: Seq<u32>, archived_only: bool, query: Seq<char>) -> Seq<u32> {
    if archived_only {
        archived
    } else if query.len() > 0 {
        (ordinary + archived).filter(|c: u32| has_substring(listed_name(c), lowercase(query)))
    } else {
        ordinary
    }
}

/// A query searches every chat, archived ones included: a chat of either
/// listing is found exactly when its name holds the query in lowercase,
/// and nothing else is found. The archived listing ignores the query, and
/// no query gives the ordinary listing.
pub proof fn a_search_covers_every_chat(ordinary: Seq<u32>, archived: Seq<u32>, query: Seq<char>)
    ensures
        query.len() > 0 ==> forall|c: u32|
            (ordinary.contains(c) || archived.contains(c)) ==> (#[trigger] listing(
                ordinary,
                archived,
                false,
                query,
            ).contains(c) <==> has_substring(listed_name(c), lowercase(query))),
        forall|c: u32|
            #[trigger] listing(ordinary, archived, false, query).contains(c) ==> ordinary.contains(c)
                || archived.contains(c),
        listing(ordinary, archived, true, query) == archived,
        query.len() == 0 ==> listing(ordinary, archived, false, query) == ordinary,
{
    let all = ordinary + archived;
    let found = |c: u32| has_substring(listed_name(c), lowercase(query));
    assert forall|c: u32| #[trigger] listing(ordinary, archived, false, query).contains(c) implies ordinary.contains(c)
        || archived.contains(c) by {
        if query.len() > 0 {
            all.lemma_filter_contains_rev(found, c);
            let k = choose|k: int| 0 <= k < all.len() && all[k] == c;
            if k < ordinary.len() {
                assert(ordinary[k] == c);
            } else {
                assert(archived[k - ordinary.len()] == c);
            }
        }
    }
    if query.len() > 0 {
        assert forall|c: u32| (ordinary.contains(c) || archived.contains(c)) implies (#[trigger] listing(
            ordinary,
            archived,
            false,
            query,
        ).contains(c) <==> has_substring(listed_name(c), lowercase(query))) by {
            if listing(ordinary, archived, false, query).contains(c) {
                all.lemma_filter_contains_rev(found, c);
            }
            if has_substring(listed_name(c), lowercase(query)) {
                let k = if ordinary.contains(c) {
                    choose|k: int| 0 <= k < ordinary.len() && ordinary[k] == c
                } else {
                    let a = choose|a: int| 0 <= a < archived.len() && archived[a] == c;
                    ordinary.len() + a
                };
                assert(all[k] == c);
                all.lemma_filter_contains(found, k);
            }
        }
    }
}

impl ChatBook {
    /// The first chat, in id order, holding message `msg`; 0 for none.
    pub fn chat_of(&self, msg: u32) -> (chat: u32)
        ensures
            chat == holder(self.table(), msg),
    {
        let n = self.chats.len();
        let mut i: usize = 0;
        proof {
            assert(self.table().subrange(0, n as int) =~= self.table());
        }
        while i < n
            invariant
                n == self.chats@.len(),
                i <= n,
                holder(self.table(), msg) == holder(self.table().subrange(i as int, n as int), msg),
            decreases n - i,
        {
            proof {
                assert(self.table().subrange(i as int, n as int).drop_first() =~= self.table().subrange(
                    i + 1,
                    n as int,
                ));
            }
            let chat = &self.chats[i];
            if crate::idset::seq_has(&chat.messages, msg) {
                return chat.id;
            }
            i = i + 1;
        }
        0
    }

    /// Append a message to a chat and move the chat to the top, the way a
    /// send or an incoming message does; the new id and the events the real
    /// core follows it with are returned.
    pub fn add_message(&mut self, account_id: u32, chat_id: u32) -> (added: (u32, Vec<QueuedEvent>))
        requires
            old(self).wf(),
            old(self).next_message_id < u32::MAX,
        ensures
            final(self).wf(),
            added.0 == old(self).next_message_id + 1,
            final(self).next_message_id == added.0,
            lookup(final(self).table(), chat_id) == Some(
                match lookup(old(self).table(), chat_id) {
                    Some(m) => m,
                    None => Seq::empty(),
                }.push(added.0),
            ),
            forall|k: u32| k != chat_id ==> lookup(final(self).table(), k) == lookup(old(self).table(), k),
            final(self).chat_order@ == seq![chat_id] + without(old(self).chat_order@, chat_id),
            final(self).archived_order == old(self).archived_order,
            final(self).next_chat_id == old(self).next_chat_id,
            added.1@ == seq![
                QueuedEvent { context_id: account_id, event: FakeEvent::IncomingMsg { chat_id, msg_id: added.0 } },
                QueuedEvent { context_id: account_id, event: FakeEvent::ChatlistItemChanged { chat_id } },
            ],
    {
        self.next_message_id = self.next_message_id + 1;
        let id = self.next_message_id;
        let mut messages = match self.messages_of(chat_id) {
            Some(m) => m,
            None => Vec::new(),
        };
        messages.push(id);
        self.set_messages(chat_id, messages);
        let mut order = drop_chat(&self.chat_order, chat_id);
        order.insert(0, chat_id);
        self.chat_order = order;
        assert(self.chat_order@ =~= seq![chat_id] + without(old(self).chat_order@, chat_id));
        let mut events = Vec::new();
        events.push(QueuedEvent { context_id: account_id, event: FakeEvent::IncomingMsg { chat_id, msg_id: id } });
        events.push(QueuedEvent { context_id: account_id, event: FakeEvent::ChatlistItemChanged { chat_id } });
        assert(events@ =~= seq![
            QueuedEvent { context_id: account_id, event: FakeEvent::IncomingMsg { chat_id, msg_id: id } },
            QueuedEvent { context_id: account_id, event: FakeEvent::ChatlistItemChanged { chat_id } },
        ]);
        (id, events)
    }

    /// Put a message into a chat one place before its end, and announce it:
    /// a received message sorts below the newest seen one and no further.
    pub fn add_late_message(&mut self, account_id: u32, chat_id: u32) -> (added: (u32, QueuedEvent))
        requires
            old(self).wf(),
            old(self).next_message_id < u32::MAX,
        ensures
            final(self).wf(),
            added.0 == old(self).next_message_id + 1,
            final(self).next_message_id == added.0,
            ({
                let before = match lookup(old(self).table(), chat_id) {
                    Some(m) => m,
                    None => Seq::empty(),
                };
                let at = if before.len() > 0 { before.len() - 1 } else { 0 };
                lookup(final(self).table(), chat_id) == Some(before.insert(at, added.0))
            }),
            forall|k: u32| k != chat_id ==> lookup(final(self).table(), k) == lookup(old(self).table(), k),
            final(self).chat_order == old(self).chat_order,
            final(self).archived_order == old(self).archived_order,
            final(self).next_chat_id == old(self).next_chat_id,
            added.1 == (QueuedEvent { context_id: account_id, event: FakeEvent::IncomingMsg { chat_id, msg_id: added.0 } }),
    {
        self.next_message_id = self.next_message_id + 1;
        let id = self.next_message_id;
        let mut messages = match self.messages_of(chat_id) {
            Some(m) => m,
            None => Vec::new(),
        };
        let at = messages.len().saturating_sub(1);
        messages.insert(at, id);
        self.set_messages(chat_id, messages);
        (id, QueuedEvent { context_id: account_id, event: FakeEvent::IncomingMsg { chat_id, msg_id: id } })
    }

    /// A new, empty chat at the top of the list, under the next chat id.
    pub fn create_chat(&mut self) -> (chat: u32)
        requires
            old(self).wf(),
            old(self).next_chat_id < u32::MAX,
        ensures
            final(self).wf(),
            chat == old(self).next_chat_id + 1,
            final(self).next_chat_id == chat,
            lookup(final(self).table(), chat) == Some(Seq::<u32>::empty()),
            forall|k: u32| k != chat ==> lookup(final(self).table(), k) == lookup(old(self).table(), k),
            final(self).chat_order@ == seq![chat] + old(self).chat_order@,
            final(self).archived_order == old(self).archived_order,
            final(self).next_message_id == old(self).next_message_id,
    {
        self.next_chat_id = self.next_chat_id + 1;
        let chat = self.next_chat_id;
        self.set_messages(chat, Vec::new());
        self.chat_order.insert(0, chat);
        assert(self.chat_order@ =~= seq![chat] + old(self).chat_order@);
        chat
    }

    /// A chat deleted: its messages and its place in the ordinary list go.
    pub fn delete_chat(&mut self, chat: u32)
        requires
            old(self).wf(),
        ensures
            final(self).wf(),
            lookup(final(self).table(), chat) is None,
            forall|k: u32| k != chat ==> lookup(final(self).table(), k) == lookup(old(self).table(), k),
            final(self).chat_order@ == without(old(self).chat_order@, chat),
            final(self).archived_order == old(self).archived_order,
            final(self).next_message_id == old(self).next_message_id,
            final(self).next_chat_id == old(self).next_chat_id,
    {
        let ghost before = self.table();
        let at = place(&self.chats, chat);
        proof {
            lemma_lookup_unique(before, chat);
        }
        if at < self.chats.len() && self.chats[at].id == chat {
            self.chats.remove(at);
            proof {
                let after = self.table();
                assert(after =~= before.remove(at as int));
                assert forall|i: int, j: int| 0 <= i < j < after.len() implies after[i].0 < after[j].0 by {
                    if j < at {
                    } else if i < at {
                        assert(after[j] == before[j + 1]);
                    } else {
                        assert(after[i] == before[i + 1] && after[j] == before[j + 1]);
                    }
                }
                lemma_lookup_absent(after, chat);
                assert forall|k: u32| k != chat implies lookup(after, k) == lookup(before, k) by {
                    lemma_lookup_unique(after, k);
                    lemma_lookup_unique(before, k);
                    if exists|i: int| 0 <= i < before.len() && before[i].0 == k {
                        let i = choose|i: int| 0 <= i < before.len() && before[i].0 == k;
                        lemma_lookup_index(before, i);
                        if i < at {
                            lemma_lookup_index(after, i);
                        } else {
                            assert(i != at);
                            assert(after[i - 1] == before[i]);
                            lemma_lookup_index(after, i - 1);
                        }
                    } else {
                        assert forall|i: int| 0 <= i < after.len() implies after[i].0 != k by {
                            if i < at {
                                assert(after[i] == before[i]);
                            } else {
                                assert(after[i] == before[i + 1]);
                            }
                        }
                    }
                }
            }
        }
        self.chat_order = drop_chat(&self.chat_order, chat);
    }

    /// The messages a search for `needle` (already in lowercase) finds:
    /// every message whose text holds it, chat by chat in id order, within
    /// one chat when one is named; nothing for an empty needle.
    pub fn search_messages(&self, needle: &str, within: Option<u32>) -> (hits: Vec<u32>)
        ensures
            hits@ == search_hits(self.table(), needle@, within),
    {
        let mut hits: Vec<u32> = Vec::new();
        let n = self.chats.len();
        let mut i: usize = 0;
        let searching = needle.unicode_len() > 0;
        proof {
            assert(self.table().subrange(0, 0) =~= Seq::<(u32, Seq<u32>)>::empty());
        }
        while i < n
            invariant
                n == self.chats@.len(),
                i <= n,
                searching == (needle@.len() > 0),
                hits@ == search_hits(self.table().subrange(0, i as int), needle@, within),
            decreases n - i,
        {
            proof {
                assert(self.table().subrange(0, i + 1).drop_last() =~= self.table().subrange(0, i as int));
            }
            let chat = &self.chats[i];
            let skip = match within {
                Some(wanted) => wanted != chat.id,
                None => false,
            };
            if !skip {
                let ghost earlier = hits@;
                let m = chat.messages.len();
                let mut j: usize = 0;
                proof {
                    assert(chat.messages@.subrange(0, 0).filter(
                        |x: u32| needle@.len() > 0 && has_substring(searched_text(x), needle@),
                    ) =~= Seq::<u32>::empty());
                }
                while j < m
                    invariant
                        m == chat.messages@.len(),
                        j <= m,
                        searching == (needle@.len() > 0),
                        hits@ == earlier + found_in(chat.messages@.subrange(0, j as int), needle@),
                    decreases m - j,
                {
                    proof {
                        assert(chat.messages@.subrange(0, j + 1).drop_last() =~= chat.messages@.subrange(0, j as int));
                        reveal(Seq::filter);
                    }
                    let msg = chat.messages[j];
                    let text = crate::text::with_number("message ", msg as u64);
                    if searching && crate::text::contains(text.as_str(), needle) {
                        hits.push(msg);
                        proof {
                            assert(hits@ =~= earlier + found_in(chat.messages@.subrange(0, j + 1), needle@));
                        }
                    }
                    j = j + 1;
                }
                proof {
                    assert(chat.messages@.subrange(0, m as int) =~= chat.messages@);
                }
            }
            i = i + 1;
        }
        proof {
            assert(self.table().subrange(0, n as int) =~= self.table());
        }
        hits
    }

    /// How many messages in every chat were sent before `cutoff`, saturating
    /// at `usize::MAX`.
    pub fn count_older(&self, cutoff: i64) -> (count: usize)
        ensures
            count == (if older_total(self.table(), cutoff) <= usize::MAX {
                older_total(self.table(), cutoff)
            } else {
                usize::MAX as nat
            }),
    {
        let n = self.chats.len();
        let mut count: usize = 0;
        let mut i: usize = 0;
        proof {
            assert(self.table().subrange(0, 0) =~= Seq::<(u32, Seq<u32>)>::empty());
        }
        while i < n
            invariant
                n == self.chats@.len(),
                i <= n,
                count == (if older_total(self.table().subrange(0, i as int), cutoff) <= usize::MAX {
                    older_total(self.table().subrange(0, i as int), cutoff)
                } else {
                    usize::MAX as nat
                }),
            decreases n - i,
        {
            proof {
                assert(self.table().subrange(0, i + 1).drop_last() =~= self.table().subrange(0, i as int));
            }
            let chat = &self.chats[i];
            let ghost base = older_total(self.table().subrange(0, i as int), cutoff);
            let m = chat.messages.len();
            let mut j: usize = 0;
            proof {
                assert(chat.messages@.subrange(0, 0).filter(
                    |x: u32| (if x == 1 { 1_700_000_000i64 } else { 1_700_090_000i64 }) < cutoff,
                ) =~= Seq::<u32>::empty());
            }
            while j < m
                invariant
                    m == chat.messages@.len(),
                    j <= m,
                    count == (if base + older_in(chat.messages@.subrange(0, j as int), cutoff) <= usize::MAX {
                        base + older_in(chat.messages@.subrange(0, j as int), cutoff)
                    } else {
                        usize::MAX as nat
                    }),
                decreases m - j,
            {
                proof {
                    assert(chat.messages@.subrange(0, j + 1).drop_last() =~= chat.messages@.subrange(0, j as int));
                    reveal(Seq::filter);
                }
                if message_timestamp(chat.messages[j] as u64) < cutoff {
                    count = count.saturating_add(1);
                }
                j = j + 1;
            }
            proof {
                assert(chat.messages@.subrange(0, m as int) =~= chat.messages@);
            }
            i = i + 1;
        }
        proof {
            assert(self.table().subrange(0, n as int) =~= self.table());
        }
        count
    }

    /// The chat list's entries: see [`listing`].
    pub fn chatlist_entries(&self, archived_only: bool, query: &str) -> (entries: Vec<u32>)
        ensures
            entries@ == listing(self.chat_order@, self.archived_order@, archived_only, query@),
    {
        if archived_only {
            return self.archived_order.clone();
        }
        if query.unicode_len() == 0 {
            return self.chat_order.clone();
        }
        let needle = crate::text::to_lowercase(query);
        let mut all = self.chat_order.clone();
        let mut k: usize = 0;
        let ghost first = self.chat_order@;
        while k < self.archived_order.len()
            invariant
                k <= self.archived_order@.len(),
                all@ == first + self.archived_order@.subrange(0, k as int),
            decreases self.archived_order@.len() - k,
        {
            all.push(self.archived_order[k]);
            assert(all@ =~= first + self.archived_order@.subrange(0, k + 1));
            k = k + 1;
        }
        assert(all@ =~= first + self.archived_order@);
        let mut entries: Vec<u32> = Vec::new();
        let n = all.len();
        let mut i: usize = 0;
        proof {
            assert(all@.subrange(0, 0).filter(|c: u32| has_substring(listed_name(c), lowercase(query@)))
                =~= Seq::<u32>::empty());
        }
        while i < n
            invariant
                n == all@.len(),
                i <= n,
                needle@ == lowercase(query@),
                entries@ == all@.subrange(0, i as int).filter(
                    |c: u32| has_substring(listed_name(c), lowercase(query@)),
                ),
            decreases n - i,
        {
            proof {
                assert(all@.subrange(0, i + 1).drop_last() =~= all@.subrange(0, i as int));
                reveal(Seq::filter);
            }
            let name = crate::text::with_number("chat ", all[i] as u64);
            if crate::text::contains(name.as_str(), needle.as_str()) {
                entries.push(all[i]);
            }
            i = i + 1;
        }
        proof {
            assert(all@.subrange(0, n as int) =~= all@);
        }
        entries
    }
}

} // verus!

verus! {

/// `messages` without any of `ids`.
pub open spec fn without_any(messages: Seq<u32>, ids: Seq<u32>) -> Seq<u32> {
    messages.filter(|m: u32| !ids.contains(m))
}

fn drop_messages(messages: &Vec<u32>, ids: &Vec<u32>) -> (kept: Vec<u32>)
    ensures
        kept@ == without_any(messages@, ids@),
{
    let mut kept: Vec<u32> = Vec::new();
    let n = messages.len();
    let mut i: usize = 0;
    proof {
        assert(without_any(messages@.subrange(0, 0), ids@) =~= Seq::<u32>::empty());
    }
    while i < n
        invariant
            n == messages@.len(),
            i <= n,
            kept@ == without_any(messages@.subrange(0, i as int), ids@),
        decreases n - i,
    {
        proof {
            assert(messages@.subrange(0, i + 1).drop_last() =~= messages@.subrange(0, i as int));
            reveal(Seq::filter);
        }
        if !crate::idset::seq_has(ids, messages[i]) {
            kept.push(messages[i]);
        }
        i = i + 1;
    }
    proof {
        assert(messages@.subrange(0, n as int) =~= messages@);
    }
    kept
}

impl ChatBook {
    /// Messages `ids` deleted from every chat that holds them.
    pub fn delete_messages(&mut self, ids: &Vec<u32>)
        requires
            old(self).wf(),
        ensures
            final(self).wf(),
            final(self).table().len() == old(self).table().len(),
            forall|i: int|
                0 <= i < old(self).table().len() ==> #[trigger] final(self).table()[i] == (
                    old(self).table()[i].0,
                    without_any(old(self).table()[i].1, ids@),
                ),
            final(self).chat_order == old(self).chat_order,
            final(self).archived_order == old(self).archived_order,
            final(self).next_message_id == old(self).next_message_id,
            final(self).next_chat_id == old(self).next_chat_id,
    {
        let ghost before = self.table();
        let n = self.chats.len();
        let mut kept: Vec<Chat> = Vec::new();
        let mut i: usize = 0;
        while i < n
            invariant
                n == self.chats@.len(),
                before == self.table(),
                i <= n,
                kept@.len() == i,
                forall|j: int| 0 <= j < i ==> #[trigger] entries(kept@)[j] == (before[j].0, without_any(before[j].1, ids@)),
            decreases n - i,
        {
            let chat = Chat { id: self.chats[i].id, messages: drop_messages(&self.chats[i].messages, ids) };
            let ghost earlier = kept@;
            kept.push(chat);
            proof {
                assert(before[i as int] == (self.chats@[i as int].id, self.chats@[i as int].messages@));
                assert forall|j: int| 0 <= j < i + 1 implies #[trigger] entries(kept@)[j] == (before[j].0, without_any(before[j].1, ids@)) by {
                    if j < i {
                        assert(kept@[j] == earlier[j]);
                        assert(entries(earlier)[j] == entries(kept@)[j]);
                    }
                }
            }
            i = i + 1;
        }
        self.chats = kept;
        proof {
            let after = self.table();
            assert forall|a: int, b: int| 0 <= a < b < after.len() implies after[a].0 < after[b].0 by {
                assert(after[a].0 == before[a].0 && after[b].0 == before[b].0);
            }
        }
    }
}

} // verus!
