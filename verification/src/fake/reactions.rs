//! Reactions on messages, kept per contact as the real core keeps them, and
//! the summary it gives of them: each emoji counted, most frequent first.

use std::collections::BTreeMap;

use vstd::prelude::*;

use super::chats::{ids_increasing, lemma_lookup_index, lemma_lookup_unique, lookup};
use super::messages::SELF;
use crate::text::{same_text, text_before, text_less, text_less_asymmetric, text_less_total, text_less_transitive};

verus! {

/// What one contact reacted to a message with.
pub struct ContactReactions {
    pub contact: u32,
    pub emojis: Vec<String>,
}

/// A list of texts, as characters.
pub open spec fn texts_of(list: Seq<String>) -> Seq<Seq<char>> {
    list.map_values(|t: String| t@)
}

impl View for ContactReactions {
    type V = (u32, Seq<Seq<char>>);

    open spec fn view(&self) -> (u32, Seq<Seq<char>>) {
        (self.contact, texts_of(self.emojis@))
    }
}

/// The lists of a message, as `(contact, emojis)`.
pub open spec fn lists_view(lists: Seq<ContactReactions>) -> Seq<(u32, Seq<Seq<char>>)> {
    lists.map_values(|r: ContactReactions| r@)
}

/// Every list holds something: a contact who takes all reactions back has
/// no list left.
pub open spec fn none_empty(lists: Seq<(u32, Seq<Seq<char>>)>) -> bool {
    forall|i: int| 0 <= i < lists.len() ==> #[trigger] lists[i].1.len() > 0
}

/// Reactions by message, then by contact.
pub struct ReactionBook {
    pub by_message: BTreeMap<u32, Vec<ContactReactions>>,
}

/// What one edit does to a list kept in id order: the entry under `key`,
/// at `at` when `found`, is replaced by `entry`, or taken out for none.
proof fn lemma_keyed_edit<V>(
    before: Seq<(u32, V)>,
    after: Seq<(u32, V)>,
    at: int,
    key: u32,
    found: bool,
    entry: Option<V>,
)
    requires
        ids_increasing(before),
        0 <= at <= before.len(),
        forall|j: int| 0 <= j < at ==> before[j].0 < key,
        forall|j: int| at < j < before.len() ==> before[j].0 > key,
        found == (at < before.len() && before[at].0 == key),
        !found ==> (at < before.len() ==> before[at].0 > key),
        after == (match entry {
            Some(v) => if found {
                before.update(at, (key, v))
            } else {
                before.insert(at, (key, v))
            },
            None => if found {
                before.remove(at)
            } else {
                before
            },
        }),
    ensures
        ids_increasing(after),
        lookup(after, key) == entry,
        forall|c: u32| c != key ==> #[trigger] lookup(after, c) == lookup(before, c),
        forall|i: int|
            0 <= i < after.len() ==> after[i].0 == key || exists|j: int|
                0 <= j < before.len() && #[trigger] after[i] == before[j],
{
    let grows = entry is Some && !found;
    let shrinks = entry is None && found;
    // Where an entry of `after` was in `before`.
    let from = |i: int| if grows && i > at { i - 1 } else if shrinks && i >= at { i + 1 } else { i };
    assert forall|i: int| 0 <= i < after.len() && !(entry is Some && i == at) implies #[trigger] after[i] == before[from(i)] && 0 <= from(i) < before.len() by {}
    assert forall|i: int, j: int| 0 <= i < j < after.len() implies after[i].0 < after[j].0 by {
        if entry is Some && i == at {
            assert(after[j] == before[from(j)]);
        } else if entry is Some && j == at {
            assert(after[i] == before[from(i)]);
        } else {
            assert(after[i] == before[from(i)] && after[j] == before[from(j)]);
        }
    }
    lemma_lookup_unique(after, key);
    if entry is Some {
        lemma_lookup_index(after, at);
    } else {
        assert forall|i: int| 0 <= i < after.len() implies after[i].0 != key by {
            assert(after[i] == before[from(i)]);
        }
    }
    assert forall|c: u32| c != key implies #[trigger] lookup(after, c) == lookup(before, c) by {
        lemma_lookup_unique(after, c);
        lemma_lookup_unique(before, c);
        if exists|i: int| 0 <= i < before.len() && before[i].0 == c {
            let i = choose|i: int| 0 <= i < before.len() && before[i].0 == c;
            lemma_lookup_index(before, i);
            let k = if grows && i >= at { i + 1 } else if shrinks && i > at { i - 1 } else { i };
            assert(after[k] == before[from(k)]);
            lemma_lookup_index(after, k);
        } else {
            assert forall|i: int| 0 <= i < after.len() implies after[i].0 != c by {
                if !(entry is Some && i == at) {
                    assert(after[i] == before[from(i)]);
                }
            }
        }
    }
    assert forall|i: int| 0 <= i < after.len() implies after[i].0 == key || exists|j: int|
        0 <= j < before.len() && #[trigger] after[i] == before[j] by {
        if !(entry is Some && i == at) {
            assert(after[i] == before[from(i)]);
        }
    }
}

impl ReactionBook {
    /// The lists on message `msg`, in contact order; none when nobody has
    /// reacted to it.
    pub open spec fn lists(&self, msg: u32) -> Seq<(u32, Seq<Seq<char>>)> {
        if self.by_message@.contains_key(msg) {
            lists_view(self.by_message@[msg]@)
        } else {
            Seq::empty()
        }
    }

    pub open spec fn wf(&self) -> bool {
        forall|msg: u32|
            #![trigger self.lists(msg)]
            ids_increasing(self.lists(msg)) && none_empty(self.lists(msg))
    }

    /// Nobody has reacted to anything.
    pub fn new() -> (book: ReactionBook)
        ensures
            book.wf(),
            forall|msg: u32| #[trigger] book.lists(msg).len() == 0,
    {
        ReactionBook { by_message: BTreeMap::new() }
    }

    /// `contact` now reacts to `msg` with `emojis`, in place of whatever it
    /// reacted with before; with none, its reactions are taken off.
    pub fn react(&mut self, msg: u32, contact: u32, emojis: Vec<String>)
        requires
            old(self).wf(),
        ensures
            final(self).wf(),
            lookup(final(self).lists(msg), contact) == (if emojis@.len() == 0 {
                None
            } else {
                Some(texts_of(emojis@))
            }),
            forall|c: u32|
                c != contact ==> #[trigger] lookup(final(self).lists(msg), c) == lookup(
                    old(self).lists(msg),
                    c,
                ),
            forall|m: u32| m != msg ==> #[trigger] final(self).lists(m) == old(self).lists(m),
    {
        let ghost before = self.lists(msg);
        assert(ids_increasing(before) && none_empty(before));
        let mut list = match self.by_message.remove(&msg) {
            Some(list) => list,
            None => Vec::new(),
        };
        assert(lists_view(list@) =~= before);
        let n = list.len();
        let mut at: usize = 0;
        while at < n && list[at].contact < contact
            invariant
                n == list@.len(),
                at <= n,
                lists_view(list@) == before,
                ids_increasing(before),
                forall|j: int| 0 <= j < at ==> list@[j].contact < contact,
            decreases n - at,
        {
            at = at + 1;
        }
        proof {
            assert forall|j: int| at < j < n implies list@[j].contact > contact by {
                assert(before[at as int].0 < before[j].0);
            }
        }
        let found = at < n && list[at].contact == contact;
        let ghost given = texts_of(emojis@);
        let keep = emojis.len() > 0;
        if found {
            list.remove(at);
        }
        if keep {
            list.insert(at, ContactReactions { contact, emojis });
        }
        let ghost after = lists_view(list@);
        proof {
            let entry = (contact, given);
            if found && keep {
                assert(after =~= before.update(at as int, entry));
            } else if found {
                assert(after =~= before.remove(at as int));
            } else if keep {
                assert(after =~= before.insert(at as int, entry));
            } else {
                assert(after =~= before);
            }
            lemma_keyed_edit(before, after, at as int, contact, found, if keep { Some(given) } else { None });
            assert forall|i: int| 0 <= i < after.len() implies #[trigger] after[i].1.len() > 0 by {
                if after[i].0 == contact {
                    lemma_lookup_index(after, i);
                } else {
                    let j = choose|j: int| 0 <= j < before.len() && after[i] == before[j];
                    assert(before[j].1.len() > 0);
                }
            }
        }
        self.by_message.insert(msg, list);
        proof {
            assert(self.lists(msg) == after);
            assert forall|m: u32| #[trigger] self.lists(m) == old(self).lists(m) || m == msg by {}
        }
    }
}

/// How often one emoji was sent on a message, and whether this account was
/// among those who sent it.
pub struct ReactionCount {
    pub emoji: String,
    pub count: usize,
    pub from_self: bool,
}

/// A message's reactions as the real core reports them: counted, and the
/// lists they were counted from.
pub struct ReactionSummary {
    /// One entry per emoji, most frequent first, then in text order.
    pub counted: Vec<ReactionCount>,
    /// Each contact's list, in contact order.
    pub by_contact: Vec<ContactReactions>,
}

/// A list's emojis, each with whether this account sent it.
pub open spec fn tagged(emojis: Seq<Seq<char>>, mine: bool) -> Seq<(Seq<char>, bool)> {
    emojis.map_values(|e: Seq<char>| (e, mine))
}

/// Every emoji sent on a message, list by list, with whether this account
/// sent it.
pub open spec fn sent(lists: Seq<(u32, Seq<Seq<char>>)>) -> Seq<(Seq<char>, bool)>
    decreases lists.len(),
{
    if lists.len() == 0 {
        Seq::empty()
    } else {
        sent(lists.drop_last()) + tagged(lists.last().1, lists.last().0 == SELF)
    }
}

/// How often `e` was sent.
pub open spec fn times_sent(s: Seq<(Seq<char>, bool)>, e: Seq<char>) -> nat
    decreases s.len(),
{
    if s.len() == 0 {
        0
    } else {
        times_sent(s.drop_last(), e) + if s.last().0 == e { 1nat } else { 0nat }
    }
}

/// Whether this account sent `e`.
pub open spec fn sent_by_self(s: Seq<(Seq<char>, bool)>, e: Seq<char>) -> bool
    decreases s.len(),
{
    if s.len() == 0 {
        false
    } else {
        sent_by_self(s.drop_last(), e) || (s.last().0 == e && s.last().1)
    }
}

/// `c` counts emoji `e`.
pub open spec fn counts_emoji(c: ReactionCount, e: Seq<char>) -> bool {
    c.emoji@ == e
}

/// Some entry of `counted` counts emoji `e`.
pub open spec fn counted_has(counted: Seq<ReactionCount>, e: Seq<char>) -> bool {
    exists|a: int| 0 <= a < counted.len() && #[trigger] counts_emoji(counted[a], e)
}

/// `a` is listed before `b`: sent more often, or as often and first in text
/// order.
pub open spec fn ranks_before(a: ReactionCount, b: ReactionCount) -> bool {
    a.count > b.count || (a.count == b.count && text_less(a.emoji@, b.emoji@))
}

/// `counted` is the count of what `s` sent: each emoji sent once in it, with
/// how often and whether by this account, most frequent first and then in
/// text order.
pub open spec fn counts_of(counted: Seq<ReactionCount>, s: Seq<(Seq<char>, bool)>) -> bool {
    &&& forall|i: int|
        0 <= i < counted.len() ==> {
            &&& #[trigger] counted[i].count == times_sent(s, counted[i].emoji@)
            &&& counted[i].count > 0
            &&& counted[i].from_self == sent_by_self(s, counted[i].emoji@)
        }
    &&& forall|k: int| 0 <= k < s.len() ==> counted_has(counted, #[trigger] s[k].0)
    &&& forall|i: int, j: int| 0 <= i < j < counted.len() ==> ranks_before(counted[i], counted[j])
}

/// `summary` is what the real core reports of `lists`: nothing when
/// nothing was sent, else the count and the lists themselves.
pub open spec fn summarises(summary: Option<ReactionSummary>, lists: Seq<(u32, Seq<Seq<char>>)>) -> bool {
    match summary {
        None => sent(lists).len() == 0,
        Some(s) => {
            &&& sent(lists).len() > 0
            &&& counts_of(s.counted@, sent(lists))
            &&& lists_view(s.by_contact@) == lists
        },
    }
}

/// Something sent is in what was sent.
proof fn lemma_sent_somewhere(s: Seq<(Seq<char>, bool)>, e: Seq<char>)
    requires
        times_sent(s, e) > 0 || sent_by_self(s, e),
    ensures
        exists|k: int| 0 <= k < s.len() && s[k].0 == e,
    decreases s.len(),
{
    if s.len() > 0 && !(s.last().0 == e) {
        lemma_sent_somewhere(s.drop_last(), e);
        let k = choose|k: int| 0 <= k < s.len() - 1 && s.drop_last()[k].0 == e;
        assert(s[k] == s.drop_last()[k]);
    }
}

/// The order of the summary is a strict total order on different emojis.
proof fn lemma_ranks(a: ReactionCount, b: ReactionCount, c: ReactionCount)
    ensures
        ranks_before(a, b) ==> !ranks_before(b, a),
        a.emoji@ != b.emoji@ ==> ranks_before(a, b) || ranks_before(b, a),
        ranks_before(a, b) && ranks_before(b, c) ==> ranks_before(a, c),
{
    text_less_asymmetric(a.emoji@, b.emoji@);
    if a.emoji@ != b.emoji@ {
        text_less_total(a.emoji@, b.emoji@);
    }
    if text_less(a.emoji@, b.emoji@) && text_less(b.emoji@, c.emoji@) {
        text_less_transitive(a.emoji@, b.emoji@, c.emoji@);
    }
}

/// Whether `a` is listed before `b`.
fn ranks_first(a: &ReactionCount, b: &ReactionCount) -> (first: bool)
    ensures
        first == ranks_before(*a, *b),
{
    a.count > b.count || (a.count == b.count && text_before(a.emoji.as_str(), b.emoji.as_str()))
}

/// A copy of a list of texts.
fn copy_texts(list: &Vec<String>) -> (copy: Vec<String>)
    ensures
        texts_of(copy@) == texts_of(list@),
{
    let mut copy: Vec<String> = Vec::new();
    let n = list.len();
    let mut i: usize = 0;
    while i < n
        invariant
            n == list@.len(),
            i <= n,
            copy@.len() == i,
            forall|j: int| 0 <= j < i ==> copy@[j]@ == list@[j]@,
        decreases n - i,
    {
        copy.push(list[i].clone());
        i = i + 1;
    }
    assert(texts_of(copy@) =~= texts_of(list@));
    copy
}

/// Texts paired with flags, as characters.
pub open spec fn pairs_view(pairs: Seq<(String, bool)>) -> Seq<(Seq<char>, bool)> {
    pairs.map_values(|p: (String, bool)| (p.0@, p.1))
}

/// Every emoji of `lists`, list by list, with whether this account sent it.
fn all_sent(lists: &Vec<ContactReactions>) -> (all: Vec<(String, bool)>)
    ensures
        pairs_view(all@) == sent(lists_view(lists@)),
{
    let ghost lv = lists_view(lists@);
    let mut all: Vec<(String, bool)> = Vec::new();
    let n = lists.len();
    let mut i: usize = 0;
    assert(lv.take(0) =~= Seq::<(u32, Seq<Seq<char>>)>::empty());
    while i < n
        invariant
            n == lists@.len(),
            lv == lists_view(lists@),
            i <= n,
            pairs_view(all@) == sent(lv.take(i as int)),
        decreases n - i,
    {
        let mine = lists[i].contact == SELF;
        let emojis = &lists[i].emojis;
        let m = emojis.len();
        let mut j: usize = 0;
        let ghost before = sent(lv.take(i as int));
        assert(lv[i as int].1.len() == m);
        while j < m
            invariant
                n == lists@.len(),
                lv == lists_view(lists@),
                i < n,
                m == emojis@.len(),
                emojis == lists@[i as int].emojis,
                mine == (lv[i as int].0 == SELF),
                j <= m,
                before == sent(lv.take(i as int)),
                pairs_view(all@) == before + tagged(lv[i as int].1.take(j as int), mine),
            decreases m - j,
        {
            let ghost old_all = pairs_view(all@);
            let e = emojis[j].clone();
            proof {
                assert(lv[i as int].1[j as int] == e@);
            }
            all.push((e, mine));
            proof {
                assert(pairs_view(all@) =~= old_all.push((e@, mine)));
                assert(tagged(lv[i as int].1.take(j + 1), mine) =~= tagged(lv[i as int].1.take(j as int), mine).push((emojis@[j as int]@, mine)));
                assert(pairs_view(all@) =~= before + tagged(lv[i as int].1.take(j + 1), mine));
            }
            j = j + 1;
        }
        proof {
            assert(lv.take(i + 1).drop_last() =~= lv.take(i as int));
            assert(lv[i as int].1.take(m as int) =~= lv[i as int].1);
        }
        i = i + 1;
    }
    assert(lv.take(n as int) =~= lv);
    all
}

/// Each emoji of `all` once, in the order first sent, with how often and
/// whether by this account.
fn count_sent(all: &Vec<(String, bool)>) -> (counted: Vec<ReactionCount>)
    ensures
        forall|a: int, b: int| 0 <= a < b < counted@.len() ==> counted@[a].emoji@ != counted@[b].emoji@,
        forall|a: int|
            0 <= a < counted@.len() ==> {
                &&& #[trigger] counted@[a].count == times_sent(pairs_view(all@), counted@[a].emoji@)
                &&& counted@[a].count > 0
                &&& counted@[a].from_self == sent_by_self(pairs_view(all@), counted@[a].emoji@)
            },
        forall|k: int| 0 <= k < all@.len() ==> counted_has(counted@, #[trigger] pairs_view(all@)[k].0),
{
    let ghost f = pairs_view(all@);
    let mut counted: Vec<ReactionCount> = Vec::new();
    let n = all.len();
    let mut k: usize = 0;
    while k < n
        invariant
            n == all@.len(),
            f == pairs_view(all@),
            k <= n,
            forall|a: int, b: int| 0 <= a < b < counted@.len() ==> counted@[a].emoji@ != counted@[b].emoji@,
            forall|a: int|
                0 <= a < counted@.len() ==> {
                    &&& #[trigger] counted@[a].count == times_sent(f.take(k as int), counted@[a].emoji@)
                    &&& counted@[a].count > 0
                    &&& counted@[a].count <= k
                    &&& counted@[a].from_self == sent_by_self(f.take(k as int), counted@[a].emoji@)
                },
            forall|j: int| 0 <= j < k ==> counted_has(counted@, #[trigger] f[j].0),
        decreases n - k,
    {
        let e = &all[k].0;
        let mine = all[k].1;
        let ghost fk = f.take(k as int);
        let ghost next = f.take(k + 1);
        proof {
            assert(next.drop_last() =~= fk);
            assert(next.last() == f[k as int]);
            assert(f[k as int] == (e@, mine));
        }
        let len = counted.len();
        let mut i: usize = 0;
        let mut found = false;
        while i < len && !found
            invariant
                len == counted@.len(),
                i <= len,
                forall|a: int| 0 <= a < i ==> counted@[a].emoji@ != e@,
                found ==> i < len && counted@[i as int].emoji@ == e@,
            decreases len - i, if found { 0int } else { 1int },
        {
            if same_text(counted[i].emoji.as_str(), e.as_str()) {
                found = true;
            } else {
                i = i + 1;
            }
        }
        let ghost before = counted@;
        if found {
            let bumped = ReactionCount {
                emoji: counted[i].emoji.clone(),
                count: counted[i].count + 1,
                from_self: counted[i].from_self || mine,
            };
            counted.set(i, bumped);
            proof {
                assert forall|a: int| 0 <= a < counted@.len() implies {
                    &&& #[trigger] counted@[a].count == times_sent(next, counted@[a].emoji@)
                    &&& counted@[a].count > 0
                    &&& counted@[a].count <= k + 1
                    &&& counted@[a].from_self == sent_by_self(next, counted@[a].emoji@)
                } by {
                    if a != i {
                        assert(counted@[a] == before[a]);
                        assert(before[a].emoji@ != before[i as int].emoji@);
                    }
                }
                assert forall|j: int| 0 <= j < k + 1 implies counted_has(counted@, #[trigger] f[j].0) by {
                    if j == k {
                        assert(counts_emoji(counted@[i as int], f[j].0));
                    } else {
                        let a = choose|a: int| 0 <= a < before.len() && #[trigger] counts_emoji(before[a], f[j].0);
                        assert(counts_emoji(counted@[a], f[j].0));
                    }
                }
            }
        } else {
            proof {
                if times_sent(fk, e@) > 0 || sent_by_self(fk, e@) {
                    lemma_sent_somewhere(fk, e@);
                    let j = choose|j: int| 0 <= j < fk.len() && fk[j].0 == e@;
                    assert(fk[j] == f[j]);
                    let a = choose|a: int| 0 <= a < before.len() && #[trigger] counts_emoji(before[a], f[j].0);
                }
            }
            counted.push(ReactionCount { emoji: e.clone(), count: 1, from_self: mine });
            proof {
                assert forall|a: int| 0 <= a < counted@.len() implies {
                    &&& #[trigger] counted@[a].count == times_sent(next, counted@[a].emoji@)
                    &&& counted@[a].count > 0
                    &&& counted@[a].count <= k + 1
                    &&& counted@[a].from_self == sent_by_self(next, counted@[a].emoji@)
                } by {
                    if a < len {
                        assert(counted@[a] == before[a]);
                    }
                }
                assert forall|j: int| 0 <= j < k + 1 implies counted_has(counted@, #[trigger] f[j].0) by {
                    if j == k {
                        assert(counts_emoji(counted@[len as int], f[j].0));
                    } else {
                        let a = choose|a: int| 0 <= a < before.len() && #[trigger] counts_emoji(before[a], f[j].0);
                        assert(counted@[a] == before[a]);
                        assert(counts_emoji(counted@[a], f[j].0));
                    }
                }
            }
        }
        k = k + 1;
    }
    assert(f.take(n as int) =~= f);
    counted
}

/// `x` is one of `s[lo..hi]`.
pub open spec fn among(s: Seq<ReactionCount>, x: ReactionCount, lo: int, hi: int) -> bool {
    exists|b: int| lo <= b < hi && #[trigger] s[b] == x
}

/// The entries of `counted`, in the order the summary lists them.
fn rank(counted: Vec<ReactionCount>) -> (ranked: Vec<ReactionCount>)
    requires
        forall|a: int, b: int| 0 <= a < b < counted@.len() ==> counted@[a].emoji@ != counted@[b].emoji@,
    ensures
        ranked@.len() == counted@.len(),
        forall|a: int| 0 <= a < ranked@.len() ==> among(counted@, #[trigger] ranked@[a], 0, counted@.len() as int),
        forall|b: int| 0 <= b < counted@.len() ==> among(ranked@, #[trigger] counted@[b], 0, ranked@.len() as int),
        forall|a: int, c: int| 0 <= a < c < ranked@.len() ==> ranks_before(ranked@[a], ranked@[c]),
{
    let ghost all = counted@;
    let total = counted.len();
    let mut rest = counted;
    let mut ranked: Vec<ReactionCount> = Vec::new();
    while rest.len() > 0
        invariant
            total == all.len(),
            rest@.len() <= total,
            rest@ == all.subrange(0, rest@.len() as int),
            ranked@.len() + rest@.len() == total,
            forall|a: int, b: int| 0 <= a < b < all.len() ==> all[a].emoji@ != all[b].emoji@,
            forall|a: int| 0 <= a < ranked@.len() ==> among(all, #[trigger] ranked@[a], rest@.len() as int, total as int),
            forall|b: int| rest@.len() <= b < total ==> among(ranked@, #[trigger] all[b], 0, ranked@.len() as int),
            forall|a: int, c: int| 0 <= a < c < ranked@.len() ==> ranks_before(ranked@[a], ranked@[c]),
        decreases rest@.len(),
    {
        let ghost r = rest@.len() - 1;
        let x = match rest.pop() {
            Some(x) => x,
            None => {
                assert(false);
                return ranked;
            },
        };
        proof {
            assert(x == all[r]);
            assert forall|a: int| 0 <= a < ranked@.len() implies ranked@[a].emoji@ != x.emoji@ by {
                let b = choose|b: int| r + 1 <= b < total && #[trigger] all[b] == ranked@[a];
            }
        }
        let len = ranked.len();
        let mut p: usize = 0;
        while p < len && ranks_first(&ranked[p], &x)
            invariant
                len == ranked@.len(),
                p <= len,
                forall|q: int| 0 <= q < p ==> ranks_before(#[trigger] ranked@[q], x),
            decreases len - p,
        {
            p = p + 1;
        }
        let ghost old_ranked = ranked@;
        ranked.insert(p, x);
        proof {
            let now = ranked@;
            assert(now =~= old_ranked.insert(p as int, x));
            if p < len {
                lemma_ranks(old_ranked[p as int], x, x);
            }
            assert forall|a: int, c: int| 0 <= a < c < now.len() implies ranks_before(now[a], now[c]) by {
                if c < p {
                    assert(now[a] == old_ranked[a] && now[c] == old_ranked[c]);
                } else if c == p {
                    assert(now[a] == old_ranked[a]);
                } else if a < p {
                    assert(now[a] == old_ranked[a] && now[c] == old_ranked[c - 1]);
                    lemma_ranks(now[a], x, now[c]);
                    if c - 1 > p {
                        lemma_ranks(x, old_ranked[p as int], now[c]);
                    }
                    lemma_ranks(now[a], x, now[c]);
                } else if a == p {
                    assert(now[c] == old_ranked[c - 1]);
                    if c - 1 > p {
                        lemma_ranks(x, old_ranked[p as int], now[c]);
                    }
                } else {
                    assert(now[a] == old_ranked[a - 1] && now[c] == old_ranked[c - 1]);
                }
            }
            assert forall|a: int| 0 <= a < now.len() implies among(all, #[trigger] now[a], r, total as int) by {
                if a == p {
                    assert(all[r] == now[a]);
                } else {
                    let k = if a < p { a } else { a - 1 };
                    assert(now[a] == old_ranked[k]);
                    let b = choose|b: int| r + 1 <= b < total && #[trigger] all[b] == old_ranked[k];
                    assert(all[b] == now[a]);
                }
            }
            assert forall|b: int| r <= b < total implies among(now, #[trigger] all[b], 0, now.len() as int) by {
                if b == r {
                    assert(now[p as int] == all[b]);
                } else {
                    let a = choose|a: int| 0 <= a < old_ranked.len() && #[trigger] old_ranked[a] == all[b];
                    let k = if a < p { a } else { a + 1 };
                    assert(now[k] == all[b]);
                }
            }
            assert(rest@ =~= all.subrange(0, rest@.len() as int));
        }
    }
    proof {
        assert forall|b: int| 0 <= b < total implies among(ranked@, #[trigger] all[b], 0, ranked@.len() as int) by {}
    }
    ranked
}

impl ReactionBook {
    /// A message's reactions as the real core reports them, or none when
    /// nobody has reacted to it.
    pub fn summary(&self, msg: u32) -> (summary: Option<ReactionSummary>)
        requires
            self.wf(),
        ensures
            summarises(summary, self.lists(msg)),
    {
        let lists = match self.by_message.get(&msg) {
            Some(lists) => lists,
            None => {
                return None;
            },
        };
        let ghost lv = self.lists(msg);
        assert(lists_view(lists@) == lv);
        let all = all_sent(lists);
        if all.len() == 0 {
            return None;
        }
        let counted = count_sent(&all);
        let ghost unranked = counted@;
        let ranked = rank(counted);
        proof {
            let f = sent(lv);
            assert forall|i: int| 0 <= i < ranked@.len() implies {
                &&& #[trigger] ranked@[i].count == times_sent(f, ranked@[i].emoji@)
                &&& ranked@[i].count > 0
                &&& ranked@[i].from_self == sent_by_self(f, ranked@[i].emoji@)
            } by {
                let b = choose|b: int| 0 <= b < unranked.len() && #[trigger] unranked[b] == ranked@[i];
            }
            assert forall|k: int| 0 <= k < f.len() implies counted_has(ranked@, #[trigger] f[k].0) by {
                assert(f[k] == pairs_view(all@)[k]);
                let a = choose|a: int| 0 <= a < unranked.len() && #[trigger] counts_emoji(unranked[a], f[k].0);
                let c = choose|c: int| 0 <= c < ranked@.len() && #[trigger] ranked@[c] == unranked[a];
                assert(counts_emoji(ranked@[c], f[k].0));
            }
        }
        let mut by_contact: Vec<ContactReactions> = Vec::new();
        let n = lists.len();
        let mut i: usize = 0;
        while i < n
            invariant
                n == lists@.len(),
                i <= n,
                lists_view(by_contact@) == lists_view(lists@).take(i as int),
            decreases n - i,
        {
            let copy = ContactReactions { contact: lists[i].contact, emojis: copy_texts(&lists[i].emojis) };
            let ghost before = lists_view(by_contact@);
            by_contact.push(copy);
            proof {
                assert(lists_view(by_contact@) =~= before.push(lists@[i as int]@));
                assert(lists_view(lists@).take(i + 1) =~= lists_view(lists@).take(i as int).push(lists@[i as int]@));
            }
            i = i + 1;
        }
        assert(lists_view(lists@).take(n as int) =~= lists_view(lists@));
        Some(ReactionSummary { counted: ranked, by_contact })
    }
}

} // verus!

verus! {

/// A lookup that finds something finds an entry of the list.
proof fn lemma_lookup_found<V>(lists: Seq<(u32, V)>, id: u32)
    requires
        lookup(lists, id) is Some,
    ensures
        exists|i: int| 0 <= i < lists.len() && lists[i] == (id, lookup(lists, id).unwrap()),
    decreases lists.len(),
{
    if lists[0].0 != id {
        lemma_lookup_found(lists.drop_first(), id);
        let i = choose|i: int| 0 <= i < lists.len() - 1 && lists.drop_first()[i] == (id, lookup(lists, id).unwrap());
        assert(lists[i + 1] == lists.drop_first()[i]);
    } else {
        assert(lists[0] == (id, lookup(lists, id).unwrap()));
    }
}

/// What list `i` holds is among what was sent, tagged with whether this
/// account sent it.
proof fn lemma_in_sent(lists: Seq<(u32, Seq<Seq<char>>)>, i: int, j: int)
    requires
        0 <= i < lists.len(),
        0 <= j < lists[i].1.len(),
    ensures
        exists|k: int| 0 <= k < sent(lists).len() && sent(lists)[k] == (lists[i].1[j], lists[i].0 == SELF),
    decreases lists.len(),
{
    let earlier = sent(lists.drop_last());
    let last = tagged(lists.last().1, lists.last().0 == SELF);
    assert(sent(lists) == earlier + last);
    if i == lists.len() - 1 {
        assert(sent(lists)[earlier.len() + j] == last[j]);
    } else {
        lemma_in_sent(lists.drop_last(), i, j);
        let k = choose|k: int| 0 <= k < earlier.len() && earlier[k] == (lists.drop_last()[i].1[j], lists.drop_last()[i].0 == SELF);
        assert(sent(lists)[k] == earlier[k]);
    }
}

/// An emoji sent by this account, somewhere in what was sent, counts as
/// sent and as sent by it.
proof fn lemma_counted_as_own(s: Seq<(Seq<char>, bool)>, k: int)
    requires
        0 <= k < s.len(),
        s[k].1,
    ensures
        sent_by_self(s, s[k].0),
        times_sent(s, s[k].0) > 0,
    decreases s.len(),
{
    if k < s.len() - 1 {
        assert(s.drop_last()[k] == s[k]);
        lemma_counted_as_own(s.drop_last(), k);
    }
}

/// What this account reacted with is counted, and counted as its own: once
/// `react` has given it `emojis` on a message, each of them is in the
/// summary of that message as sent by this account.
pub proof fn own_reactions_count_as_own(lists: Seq<(u32, Seq<Seq<char>>)>, emojis: Seq<Seq<char>>, e: Seq<char>)
    requires
        lookup(lists, SELF) == Some(emojis),
        emojis.contains(e),
    ensures
        sent_by_self(sent(lists), e),
        times_sent(sent(lists), e) > 0,
{
    lemma_lookup_found(lists, SELF);
    let i = choose|i: int| 0 <= i < lists.len() && lists[i] == (SELF, emojis);
    let j = choose|j: int| 0 <= j < emojis.len() && emojis[j] == e;
    lemma_in_sent(lists, i, j);
    let k = choose|k: int| 0 <= k < sent(lists).len() && sent(lists)[k] == (lists[i].1[j], lists[i].0 == SELF);
    lemma_counted_as_own(sent(lists), k);
}

} // verus!
