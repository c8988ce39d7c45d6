//! The double's contacts and groups: who there is, what they are called
//! here, and who is in which group.

use std::collections::{BTreeMap, BTreeSet};

use vstd::prelude::*;

use super::chats::{drop_chat, without};
use super::messages::{ADA, SELF};
use crate::text::{decimal, has_substring, lowercase};

verus! {

/// The account's own address.
pub const SELF_ADDRESS: &'static str = "me@example.org";

/// Ada's address.
pub const ADA_ADDRESS: &'static str = "ada@example.org";

/// The other known contact.
pub const GRACE: u32 = 11;

/// Grace's address.
pub const GRACE_ADDRESS: &'static str = "grace@example.org";

/// What a contact of Ada's says about herself.
pub const ADA_STATUS: &'static str = "Poet and mathematician";

/// One contact, shaped as `get_contacts` shapes them.
pub struct ContactCard {
    pub id: u32,
    pub address: String,
    /// What the contact calls themselves: their address up to the `@`.
    pub auth_name: String,
    /// What they were named here; empty for none.
    pub name: String,
    /// The name here when there is one, else their own.
    pub display_name: String,
    pub is_verified: bool,
    pub status: String,
}

/// `address` up to its first `@`, or the whole of it when it has none:
/// the first piece `split('@')` gives.
pub open spec fn before_at(address: Seq<char>) -> Seq<char>
    decreases address.len(),
{
    if address.len() == 0 {
        address
    } else if address.last() == '@' && !address.drop_last().contains('@') {
        address.drop_last()
    } else if address.drop_last().contains('@') {
        before_at(address.drop_last())
    } else {
        address
    }
}

fn up_to_at(address: &str) -> (part: String)
    ensures
        part@ == before_at(address@),
{
    let n = address.unicode_len();
    let mut i: usize = 0;
    while i < n && address.get_char(i) != '@'
        invariant
            n == address@.len(),
            i <= n,
            forall|j: int| 0 <= j < i ==> address@[j] != '@',
        decreases n - i,
    {
        i = i + 1;
    }
    proof {
        lemma_before_at(address@, i as int);
    }
    address.substring_char(0, i).to_owned()
}

proof fn lemma_before_at(s: Seq<char>, i: int)
    requires
        0 <= i <= s.len(),
        forall|j: int| 0 <= j < i ==> s[j] != '@',
        i == s.len() || s[i] == '@',
    ensures
        before_at(s) == s.subrange(0, i),
    decreases s.len(),
{
    if s.len() == 0 {
        assert(s.subrange(0, i) =~= s);
    } else if i == s.len() {
        assert(!s.drop_last().contains('@'));
        assert(s.subrange(0, i) =~= s);
    } else if i == s.len() - 1 {
        assert(!s.drop_last().contains('@'));
        assert(s.subrange(0, i) =~= s.drop_last());
    } else {
        assert(s.drop_last()[i] == '@');
        assert(s.drop_last().contains('@'));
        lemma_before_at(s.drop_last(), i);
        assert(s.drop_last().subrange(0, i) =~= s.subrange(0, i));
    }
}

/// A contact as listed: seeded with two known addresses, by id.
pub struct Known {
    pub id: u32,
    pub address: String,
}

/// The contacts and groups.
pub struct PeopleBook {
    /// Contact id and address, in id order.
    pub contacts: Vec<Known>,
    /// Names given to contacts here, by contact.
    pub contact_names: BTreeMap<u32, String>,
    /// Members of each group, by chat. A chat with an entry is a group.
    pub group_members: BTreeMap<u32, Vec<u32>>,
    /// Group names given after creation, by chat.
    pub group_names: BTreeMap<u32, String>,
    /// Group pictures, by chat: the path it was given.
    pub group_images: BTreeMap<u32, String>,
    /// Groups this account has left.
    pub left_groups: BTreeSet<u32>,
}

/// The address of a known contact.
pub open spec fn address_of(contacts: Seq<Known>, id: u32) -> Option<Seq<char>>
    decreases contacts.len(),
{
    if contacts.len() == 0 {
        None
    } else if contacts[0].id == id {
        Some(contacts[0].address@)
    } else {
        address_of(contacts.drop_first(), id)
    }
}

/// Every contact in the list has an address there.
proof fn listed_contact_has_address(contacts: Seq<Known>, i: int)
    requires
        0 <= i < contacts.len(),
    ensures
        address_of(contacts, contacts[i].id) is Some,
    decreases contacts.len(),
{
    if i > 0 && contacts[0].id != contacts[i].id {
        listed_contact_has_address(contacts.drop_first(), i - 1);
    }
}

/// What a contact's card says: its address (the account's own for
/// `SELF`), the name before the `@`, the name given here, the name shown,
/// whether it is verified, and its status.
pub open spec fn card_of(c: ContactCard, id: u32, address: Seq<char>, given: Option<Seq<char>>) -> bool {
    let name = match given {
        Some(n) => n,
        None => Seq::empty(),
    };
    &&& c.id == id
    &&& c.address@ == address
    &&& c.auth_name@ == before_at(address)
    &&& c.name@ == name
    &&& c.display_name@ == (if name.len() == 0 { before_at(address) } else { name })
    &&& c.is_verified == (id == ADA)
    &&& c.status@ == (if id == ADA { ADA_STATUS@ } else { Seq::empty() })
}

impl PeopleBook {
    /// Nobody yet.
    pub fn new() -> (book: PeopleBook)
        ensures
            book.contacts@.len() == 0,
            book.contact_names@ == Map::<u32, String>::empty(),
            book.group_members@ == Map::<u32, Vec<u32>>::empty(),
            book.group_names@ == Map::<u32, String>::empty(),
            book.group_images@ == Map::<u32, String>::empty(),
            book.left_groups@ == Set::<u32>::empty(),
    {
        PeopleBook {
            contacts: Vec::new(),
            contact_names: BTreeMap::new(),
            group_members: BTreeMap::new(),
            group_names: BTreeMap::new(),
            group_images: BTreeMap::new(),
            left_groups: BTreeSet::new(),
        }
    }

    fn address(&self, id: u32) -> (address: Option<String>)
        ensures
            match address {
                Some(a) => address_of(self.contacts@, id) == Some(a@),
                None => address_of(self.contacts@, id) is None,
            },
    {
        let n = self.contacts.len();
        let mut i: usize = 0;
        proof {
            assert(self.contacts@.subrange(0, n as int) =~= self.contacts@);
        }
        while i < n
            invariant
                n == self.contacts@.len(),
                i <= n,
                address_of(self.contacts@, id) == address_of(self.contacts@.subrange(i as int, n as int), id),
            decreases n - i,
        {
            proof {
                assert(self.contacts@.subrange(i as int, n as int).drop_first() =~= self.contacts@.subrange(
                    i + 1,
                    n as int,
                ));
            }
            if self.contacts[i].id == id {
                return Some(self.contacts[i].address.clone());
            }
            i = i + 1;
        }
        None
    }

    /// One contact's card: the account's own can be asked for by id though
    /// it is in no list; an unknown one has none.
    pub fn contact_object(&self, contact: u32) -> (card: Option<ContactCard>)
        ensures
            match card {
                Some(c) => {
                    let address = if contact == SELF {
                        SELF_ADDRESS@
                    } else {
                        address_of(self.contacts@, contact).unwrap()
                    };
                    &&& (contact == SELF || address_of(self.contacts@, contact) is Some)
                    &&& card_of(c, contact, address, if self.contact_names@.contains_key(contact) {
                        Some(self.contact_names@[contact]@)
                    } else {
                        None
                    })
                },
                None => contact != SELF && address_of(self.contacts@, contact) is None,
            },
    {
        let address = if contact == SELF {
            SELF_ADDRESS.to_owned()
        } else {
            match self.address(contact) {
                Some(a) => a,
                None => return None,
            }
        };
        let auth_name = up_to_at(address.as_str());
        let name = match self.contact_names.get(&contact) {
            Some(n) => n.clone(),
            None => String::new(),
        };
        let display_name = if name.as_str().unicode_len() == 0 {
            auth_name.clone()
        } else {
            name.clone()
        };
        Some(
            ContactCard {
                id: contact,
                address,
                auth_name,
                name,
                display_name,
                is_verified: contact == ADA,
                status: if contact == ADA {
                    ADA_STATUS.to_owned()
                } else {
                    String::new()
                },
            },
        )
    }

    /// Name a contact here; an empty name puts their own back.
    pub fn change_contact_name(&mut self, contact: u32, name: String)
        ensures
            final(self).contact_names@ == (if name@.len() == 0 {
                old(self).contact_names@.remove(contact)
            } else {
                old(self).contact_names@.insert(contact, name)
            }),
            final(self).contacts == old(self).contacts,
            final(self).group_members == old(self).group_members,
            final(self).group_names == old(self).group_names,
            final(self).group_images == old(self).group_images,
            final(self).left_groups == old(self).left_groups,
    {
        if name.as_str().unicode_len() == 0 {
            self.contact_names.remove(&contact);
        } else {
            self.contact_names.insert(contact, name);
        }
    }

    /// The two known contacts, Ada and Grace, and the seeded group, chat 2,
    /// with the account itself and Ada in it.
    pub fn seed(&mut self)
        ensures
            final(self).contacts@.len() == 2,
            final(self).contacts@[0].id == ADA && final(self).contacts@[0].address@ == ADA_ADDRESS@,
            final(self).contacts@[1].id == GRACE && final(self).contacts@[1].address@ == GRACE_ADDRESS@,
            final(self).group_members@.dom() == old(self).group_members@.dom().insert(2),
            final(self).group_members@[2]@ == seq![SELF, ADA],
            forall|chat: u32| chat != 2 && #[trigger] old(self).group_members@.contains_key(chat)
                ==> final(self).group_members@[chat] == old(self).group_members@[chat],
            final(self).contact_names == old(self).contact_names,
            final(self).group_names == old(self).group_names,
            final(self).group_images == old(self).group_images,
            final(self).left_groups == old(self).left_groups,
    {
        let mut contacts: Vec<Known> = Vec::new();
        contacts.push(Known { id: ADA, address: ADA_ADDRESS.to_owned() });
        contacts.push(Known { id: GRACE, address: GRACE_ADDRESS.to_owned() });
        self.contacts = contacts;
        let mut members: Vec<u32> = Vec::new();
        members.push(SELF);
        members.push(ADA);
        self.group_members.insert(2, members);
    }

    /// Whether a chat is a group: the created ones, and the seeded one.
    pub fn is_group(&self, chat: u32) -> (group: bool)
        ensures
            group == self.group_members@.contains_key(chat),
    {
        self.group_members.contains_key(&chat)
    }

    /// Whether the account has left this group.
    pub fn has_left(&self, chat: u32) -> (left: bool)
        ensures
            left == self.left_groups@.contains(chat),
    {
        self.left_groups.contains(&chat)
    }

    /// A chat's name: what it was renamed to, else `chat ` and its id.
    pub fn chat_name(&self, chat: u32) -> (name: String)
        ensures
            name@ == (if self.group_names@.contains_key(chat) {
                self.group_names@[chat]@
            } else {
                "chat "@ + decimal(chat as nat)
            }),
    {
        match self.group_names.get(&chat) {
            Some(name) => name.clone(),
            None => crate::text::with_number("chat ", chat as u64),
        }
    }
}

/// What a rename of a group is refused with when the name is empty.
pub const INVALID_NAME: &'static str = "Invalid name";

/// What a rename is refused with when the chat is not a group the
/// account is in.
pub const RENAME_REFUSED: &'static str = "Failed to set name";

/// What a group picture is refused with when the file stands for a
/// failure.
pub const PICTURE_REFUSED: &'static str = "Copying new blobfile failed";

/// The members of a group, or of nothing.
pub open spec fn members_or_none(groups: Map<u32, Vec<u32>>, chat: u32) -> Seq<u32> {
    if groups.contains_key(chat) {
        groups[chat]@
    } else {
        Seq::empty()
    }
}

impl PeopleBook {
    /// A new group, with nobody in it yet.
    pub fn create_group(&mut self, chat: u32)
        ensures
            final(self).group_members@.contains_key(chat),
            final(self).group_members@[chat]@.len() == 0,
            forall|c: u32| c != chat ==> #[trigger] final(self).group_members@.contains_key(c)
                == old(self).group_members@.contains_key(c) && (final(self).group_members@.contains_key(c)
                ==> final(self).group_members@[c] == old(self).group_members@[c]),
            final(self).contacts == old(self).contacts,
            final(self).contact_names == old(self).contact_names,
            final(self).group_names == old(self).group_names,
            final(self).group_images == old(self).group_images,
            final(self).left_groups == old(self).left_groups,
    {
        self.group_members.insert(chat, Vec::new());
    }

    /// Add a contact to a chat's members, unless it is in already; a chat
    /// with no members becomes a group with this one.
    pub fn add_member(&mut self, chat: u32, contact: u32)
        ensures
            final(self).group_members@ == old(self).group_members@.insert(
                chat,
                final(self).group_members@[chat],
            ),
            final(self).group_members@[chat]@ == (if members_or_none(old(self).group_members@, chat).contains(contact) {
                members_or_none(old(self).group_members@, chat)
            } else {
                members_or_none(old(self).group_members@, chat).push(contact)
            }),
            final(self).contacts == old(self).contacts,
            final(self).contact_names == old(self).contact_names,
            final(self).group_names == old(self).group_names,
            final(self).group_images == old(self).group_images,
            final(self).left_groups == old(self).left_groups,
    {
        let mut members = match self.group_members.get(&chat) {
            Some(m) => m.clone(),
            None => Vec::new(),
        };
        if !crate::idset::seq_has(&members, contact) {
            members.push(contact);
        }
        self.group_members.insert(chat, members);
    }

    /// Take a contact out of a group, which is no error when it was not
    /// in it; the account taking itself out has left the group.
    pub fn remove_member(&mut self, chat: u32, contact: u32)
        ensures
            final(self).group_members@ == (if old(self).group_members@.contains_key(chat) {
                old(self).group_members@.insert(chat, final(self).group_members@[chat])
            } else {
                old(self).group_members@
            }),
            old(self).group_members@.contains_key(chat) ==> final(self).group_members@[chat]@ == without(
                old(self).group_members@[chat]@,
                contact,
            ),
            final(self).left_groups@ == (if contact == SELF {
                old(self).left_groups@.insert(chat)
            } else {
                old(self).left_groups@
            }),
            final(self).contacts == old(self).contacts,
            final(self).contact_names == old(self).contact_names,
            final(self).group_names == old(self).group_names,
            final(self).group_images == old(self).group_images,
    {
        let kept = match self.group_members.get(&chat) {
            Some(members) => Some(drop_chat(members, contact)),
            None => None,
        };
        if let Some(kept) = kept {
            self.group_members.insert(chat, kept);
        }
        if contact == SELF {
            self.left_groups.insert(chat);
        }
    }

    /// Rename a group: refused for an empty name, and for a chat that is
    /// not a group the account is still in.
    pub fn set_chat_name(&mut self, chat: u32, name: String) -> (done: Result<(), &'static str>)
        ensures
            match done {
                Ok(()) => name@.len() > 0 && old(self).group_members@.contains_key(chat)
                    && !old(self).left_groups@.contains(chat) && final(self).group_names@
                    == old(self).group_names@.insert(chat, name),
                Err(reason) => final(self).group_names == old(self).group_names && if name@.len() == 0 {
                    reason == INVALID_NAME
                } else {
                    reason == RENAME_REFUSED && (!old(self).group_members@.contains_key(chat)
                        || old(self).left_groups@.contains(chat))
                },
            },
            final(self).contacts == old(self).contacts,
            final(self).contact_names == old(self).contact_names,
            final(self).group_members == old(self).group_members,
            final(self).group_images == old(self).group_images,
            final(self).left_groups == old(self).left_groups,
    {
        if name.as_str().unicode_len() == 0 {
            Err(INVALID_NAME)
        } else if !self.is_group(chat) || self.has_left(chat) {
            Err(RENAME_REFUSED)
        } else {
            self.group_names.insert(chat, name);
            Ok(())
        }
    }

    /// Give a group a picture, or take it away with `None`: refused when
    /// the file stands for a failure.
    pub fn set_chat_profile_image(&mut self, chat: u32, path: Option<String>) -> (done: Result<(), &'static str>)
        ensures
            match done {
                Ok(()) => (path is None || !has_substring(path.unwrap()@, "fail"@)) && final(self).group_images@
                    == (match path {
                    Some(p) => old(self).group_images@.insert(chat, p),
                    None => old(self).group_images@.remove(chat),
                }),
                Err(reason) => reason == PICTURE_REFUSED && path is Some && has_substring(
                    path.unwrap()@,
                    "fail"@,
                ) && final(self).group_images == old(self).group_images,
            },
            final(self).contacts == old(self).contacts,
            final(self).contact_names == old(self).contact_names,
            final(self).group_members == old(self).group_members,
            final(self).group_names == old(self).group_names,
            final(self).left_groups == old(self).left_groups,
    {
        match path {
            Some(p) => {
                if super::input::should_fail(p.as_str()) {
                    Err(PICTURE_REFUSED)
                } else {
                    self.group_images.insert(chat, p);
                    Ok(())
                }
            },
            None => {
                self.group_images.remove(&chat);
                Ok(())
            },
        }
    }

    /// The members a chat shows: a group's own, and for a one-to-one chat
    /// the one contact in it.
    pub fn members_of(&self, chat: u32) -> (members: Vec<u32>)
        ensures
            members@ == (if self.group_members@.contains_key(chat) {
                self.group_members@[chat]@
            } else {
                seq![ADA]
            }),
    {
        match self.group_members.get(&chat) {
            Some(members) => members.clone(),
            None => {
                let mut one = Vec::new();
                one.push(ADA);
                assert(one@ =~= seq![ADA]);
                one
            },
        }
    }

    /// The contacts a search lists, as cards: every known contact whose
    /// address holds the query in lowercase, and the account's own last
    /// when asked for with `DC_GCL_ADD_SELF` and nothing is searched for.
    pub fn get_contacts(&self, flags: u64, query: &str) -> (cards: Vec<ContactCard>)
        ensures
            ({
                let q = lowercase(query@);
                let found = self.contacts@.filter(
                    |k: Known| q.len() == 0 || has_substring(lowercase(k.address@), q),
                ).map_values(|k: Known| k.id);
                let listed = if flags & 2 != 0 && q.len() == 0 {
                    found.push(SELF)
                } else {
                    found
                };
                &&& cards@.len() == listed.len()
                &&& forall|i: int|
                    0 <= i < cards@.len() ==> {
                        let id = #[trigger] listed[i];
                        card_of(
                            cards@[i],
                            id,
                            if id == SELF {
                                SELF_ADDRESS@
                            } else {
                                address_of(self.contacts@, id).unwrap()
                            },
                            if self.contact_names@.contains_key(id) {
                                Some(self.contact_names@[id]@)
                            } else {
                                None
                            },
                        )
                    }
            }),
    {
        let q = crate::text::to_lowercase(query);
        let searching = q.as_str().unicode_len() > 0;
        let ghost keep = |k: Known| q@.len() == 0 || has_substring(lowercase(k.address@), q@);
        let mut ids: Vec<u32> = Vec::new();
        let n = self.contacts.len();
        let mut i: usize = 0;
        proof {
            assert(self.contacts@.subrange(0, 0).filter(keep).map_values(|k: Known| k.id) =~= Seq::<u32>::empty());
        }
        while i < n
            invariant
                n == self.contacts@.len(),
                i <= n,
                q@ == lowercase(query@),
                searching == (q@.len() > 0),
                keep == (|k: Known| q@.len() == 0 || has_substring(lowercase(k.address@), q@)),
                ids@ == self.contacts@.subrange(0, i as int).filter(keep).map_values(|k: Known| k.id),
                forall|k: int| 0 <= k < ids@.len() ==> address_of(self.contacts@, #[trigger] ids@[k]) is Some,
            decreases n - i,
        {
            proof {
                assert(self.contacts@.subrange(0, i + 1).drop_last() =~= self.contacts@.subrange(0, i as int));
                reveal(Seq::filter);
            }
            let known = &self.contacts[i];
            let listed = if searching {
                let address = crate::text::to_lowercase(known.address.as_str());
                crate::text::contains(address.as_str(), q.as_str())
            } else {
                true
            };
            if listed {
                proof {
                    listed_contact_has_address(self.contacts@, i as int);
                }
                ids.push(known.id);
                proof {
                    assert(ids@ =~= self.contacts@.subrange(0, i + 1).filter(keep).map_values(|k: Known| k.id));
                }
            }
            i = i + 1;
        }
        proof {
            assert(self.contacts@.subrange(0, n as int) =~= self.contacts@);
        }
        if flags & 2 != 0 && !searching {
            ids.push(SELF);
        }
        let mut cards: Vec<ContactCard> = Vec::new();
        let m = ids.len();
        let mut j: usize = 0;
        while j < m
            invariant
                m == ids@.len(),
                j <= m,
                cards@.len() == j,
                forall|k: int| 0 <= k < ids@.len() ==> ids@[k] == SELF || address_of(self.contacts@, ids@[k]) is Some,
                forall|k: int|
                    0 <= k < j ==> {
                        let id = #[trigger] ids@[k];
                        card_of(
                            cards@[k],
                            id,
                            if id == SELF {
                                SELF_ADDRESS@
                            } else {
                                address_of(self.contacts@, id).unwrap()
                            },
                            if self.contact_names@.contains_key(id) {
                                Some(self.contact_names@[id]@)
                            } else {
                                None
                            },
                        )
                    },
            decreases m - j,
        {
            match self.contact_object(ids[j]) {
                Some(card) => cards.push(card),
                None => {
                    assert(false);
                },
            }
            j = j + 1;
        }
        cards
    }
}

} // verus!
