//! The double's accounts: which there are, which is selected, their
//! config values, and the one ongoing process the core allows each.

use std::collections::BTreeSet;

use vstd::prelude::*;

use super::events::{FakeEvent, QueuedEvent};
use crate::text::{has_substring, same_text};

verus! {

/// One account, as `get_all_accounts` reports it.
#[derive(Clone, Copy, PartialEq, Eq, Structural)]
pub struct Account {
    pub id: u32,
    pub configured: bool,
}

/// One config value.
pub struct ConfigEntry {
    pub account: u32,
    pub key: String,
    pub value: String,
}

/// The value stored for `(account, key)`: the latest entry for it.
pub open spec fn config_lookup(entries: Seq<ConfigEntry>, account: u32, key: Seq<char>) -> Option<Seq<char>>
    decreases entries.len(),
{
    if entries.len() == 0 {
        None
    } else if entries.last().account == account && entries.last().key@ == key {
        Some(entries.last().value@)
    } else {
        config_lookup(entries.drop_last(), account, key)
    }
}

/// An account as the list shows it: a configured one carries its profile,
/// an unconfigured one is an id and nothing else.
pub enum ListedProfile {
    Configured {
        id: u32,
        display_name: String,
        addr: String,
        profile_image: Option<String>,
    },
    Unconfigured { id: u32 },
}

/// What a transport call is refused with when the relay is a failing one.
pub const UNRESOLVED_RELAY: &'static str = "cannot resolve chatmail server";

/// What selecting an account there is not is refused with.
pub const NO_SUCH_ACCOUNT: &'static str = "account not found";

/// What the core says to a second process on one account.
pub const ALREADY_RUNNING: &'static str = "There is already another ongoing process running.";

/// What a stopped transport call ends with.
pub const CONFIGURATION_STOPPED: &'static str = "Configuration was stopped";

/// What an import of an unreadable backup is refused with.
pub const UNREADABLE_BACKUP: &'static str = "backup could not be read";

/// What a stopped import ends with.
pub const TRANSFER_STOPPED: &'static str = "Transfer was stopped";

/// The accounts and what is kept per account.
pub struct AccountBook {
    pub accounts: Vec<Account>,
    /// The profile the app last said it was showing.
    pub selected: Option<u32>,
    pub config: Vec<ConfigEntry>,
    /// Accounts whose transport call or import has not ended yet.
    pub configuring: BTreeSet<u32>,
    /// Accounts whose ongoing process was asked to stop.
    pub stopped: BTreeSet<u32>,
}

/// The accounts after `configure(account_id)`: that one configured.
pub open spec fn configured_now(accounts: Seq<Account>, account_id: u32) -> Seq<Account> {
    accounts.map_values(
        |a: Account|
            if a.id == account_id {
                Account { id: a.id, configured: true }
            } else {
                a
            },
    )
}

/// The progress a configure reports, permille steps then done.
pub open spec fn configure_events(account_id: u32) -> Seq<QueuedEvent> {
    seq![
        QueuedEvent { context_id: account_id, event: FakeEvent::ConfigureProgress { progress: 300 } },
        QueuedEvent { context_id: account_id, event: FakeEvent::ConfigureProgress { progress: 1000 } },
    ]
}

impl AccountBook {
    /// No accounts, nothing selected, nothing kept.
    pub fn new() -> (book: AccountBook)
        ensures
            book.accounts@.len() == 0,
            book.selected is None,
            book.config@.len() == 0,
            book.configuring@ == Set::<u32>::empty(),
            book.stopped@ == Set::<u32>::empty(),
    {
        AccountBook {
            accounts: Vec::new(),
            selected: None,
            config: Vec::new(),
            configuring: BTreeSet::new(),
            stopped: BTreeSet::new(),
        }
    }

    /// The profiles a test wants there from the start, already configured:
    /// put in only when there are no accounts yet, and only the ids that
    /// fit an account id.
    pub fn seed(&mut self, ids: &[u64])
        ensures
            final(self).selected == old(self).selected,
            final(self).config == old(self).config,
            final(self).configuring == old(self).configuring,
            final(self).stopped == old(self).stopped,
            old(self).accounts@.len() != 0 ==> final(self).accounts@ == old(self).accounts@,
            old(self).accounts@.len() == 0 ==> final(self).accounts@ == ids@.filter(
                |id: u64| id <= u32::MAX,
            ).map_values(|id: u64| Account { id: id as u32, configured: true }),
    {
        if self.accounts.len() != 0 {
            return;
        }
        let n = ids.len();
        let mut i: usize = 0;
        proof {
            assert(ids@.subrange(0, 0).filter(|id: u64| id <= u32::MAX) =~= Seq::<u64>::empty());
        }
        while i < n
            invariant
                n == ids@.len(),
                i <= n,
                self.selected == old(self).selected,
                self.config == old(self).config,
                self.configuring == old(self).configuring,
                self.stopped == old(self).stopped,
                self.accounts@ == ids@.subrange(0, i as int).filter(|id: u64| id <= u32::MAX).map_values(
                    |id: u64| Account { id: id as u32, configured: true },
                ),
            decreases n - i,
        {
            let ghost before = ids@.subrange(0, i as int);
            proof {
                assert(ids@.subrange(0, i + 1).drop_last() =~= before);
                reveal(Seq::filter);
            }
            if ids[i] <= u32::MAX as u64 {
                self.accounts.push(Account { id: ids[i] as u32, configured: true });
                proof {
                    assert(self.accounts@ =~= ids@.subrange(0, i + 1).filter(|id: u64| id <= u32::MAX).map_values(
                        |id: u64| Account { id: id as u32, configured: true },
                    ));
                }
            } else {
                proof {
                    assert(ids@.subrange(0, i + 1).filter(|id: u64| id <= u32::MAX) =~= before.filter(
                        |id: u64| id <= u32::MAX,
                    ));
                }
            }
            i = i + 1;
        }
        proof {
            assert(ids@.subrange(0, n as int) =~= ids@);
        }
    }

    /// The value stored for `(account, key)`.
    pub fn config_value(&self, account: u32, key: &str) -> (value: Option<String>)
        ensures
            match value {
                Some(v) => config_lookup(self.config@, account, key@) == Some(v@),
                None => config_lookup(self.config@, account, key@) is None,
            },
    {
        let mut i = self.config.len();
        proof {
            assert(self.config@.subrange(0, i as int) =~= self.config@);
        }
        while i > 0
            invariant
                i <= self.config@.len(),
                config_lookup(self.config@, account, key@) == config_lookup(
                    self.config@.subrange(0, i as int),
                    account,
                    key@,
                ),
            decreases i,
        {
            let ghost before = self.config@.subrange(0, i as int);
            proof {
                assert(before.drop_last() =~= self.config@.subrange(0, i - 1));
            }
            let entry = &self.config[i - 1];
            if entry.account == account && same_text(entry.key.as_str(), key) {
                return Some(entry.value.clone());
            }
            i = i - 1;
        }
        None
    }

    /// Store a value for `(account, key)`, or clear it with `None`: null
    /// clears, as the real core does, and an empty string is a value.
    pub fn set_config(&mut self, account: u32, key: &str, value: Option<&str>)
        ensures
            final(self).accounts == old(self).accounts,
            final(self).selected == old(self).selected,
            final(self).configuring == old(self).configuring,
            final(self).stopped == old(self).stopped,
            config_lookup(final(self).config@, account, key@) == (match value {
                Some(v) => Some(v@),
                None => None,
            }),
            forall|a: u32, k: Seq<char>|
                !(a == account && k == key@) ==> config_lookup(final(self).config@, a, k)
                    == config_lookup(old(self).config@, a, k),
    {
        let mut kept: Vec<ConfigEntry> = Vec::new();
        let n = self.config.len();
        let mut i: usize = 0;
        while i < n
            invariant
                n == self.config@.len(),
                i <= n,
                self.config == old(self).config,
                config_lookup(kept@, account, key@) is None,
                forall|a: u32, k: Seq<char>|
                    !(a == account && k == key@) ==> config_lookup(kept@, a, k) == config_lookup(
                        self.config@.subrange(0, i as int),
                        a,
                        k,
                    ),
            decreases n - i,
        {
            proof {
                assert(self.config@.subrange(0, i + 1).drop_last() =~= self.config@.subrange(0, i as int));
            }
            let entry = &self.config[i];
            let ghost before = kept@;
            let ghost upto = self.config@.subrange(0, i + 1);
            if !(entry.account == account && same_text(entry.key.as_str(), key)) {
                kept.push(ConfigEntry { account: entry.account, key: entry.key.clone(), value: entry.value.clone() });
                proof {
                    assert(kept@.drop_last() =~= before);
                    assert forall|a: u32, k: Seq<char>|
                        !(a == account && k == key@) implies config_lookup(kept@, a, k) == config_lookup(upto, a, k) by {
                        assert(upto.last() == self.config@[i as int]);
                        assert(kept@.last().account == upto.last().account);
                        assert(kept@.last().key@ == upto.last().key@);
                        assert(kept@.last().value@ == upto.last().value@);
                        assert(upto.drop_last() =~= self.config@.subrange(0, i as int));
                        if !(upto.last().account == a && upto.last().key@ == k) {
                            assert(config_lookup(kept@, a, k) == config_lookup(before, a, k));
                            assert(config_lookup(upto, a, k) == config_lookup(upto.drop_last(), a, k));
                        }
                    }
                }
            } else {
                proof {
                    assert(upto.last() == self.config@[i as int]);
                    assert(upto.last().account == account && upto.last().key@ == key@);
                    assert(upto.drop_last() =~= self.config@.subrange(0, i as int));
                    assert forall|a: u32, k: Seq<char>|
                        !(a == account && k == key@) implies config_lookup(kept@, a, k) == config_lookup(upto, a, k) by {
                        assert(!(upto.last().account == a && upto.last().key@ == k));
                        assert(config_lookup(upto, a, k) == config_lookup(upto.drop_last(), a, k));
                    }
                }
            }
            i = i + 1;
        }
        proof {
            assert(self.config@.subrange(0, n as int) =~= self.config@);
            assert forall|a: u32, k: Seq<char>|
                !(a == account && k == key@) implies config_lookup(kept@, a, k) == config_lookup(
                old(self).config@,
                a,
                k,
            ) by {
                assert(self.config@.subrange(0, n as int) == old(self).config@);
            }
        }
        if let Some(v) = value {
            let ghost before = kept@;
            kept.push(ConfigEntry { account, key: key.to_owned(), value: v.to_owned() });
            proof {
                assert(kept@.drop_last() =~= before);
                assert forall|a: u32, k: Seq<char>|
                    !(a == account && k == key@) implies config_lookup(kept@, a, k) == config_lookup(
                    old(self).config@,
                    a,
                    k,
                ) by {
                    assert(config_lookup(kept@, a, k) == config_lookup(before, a, k));
                }
            }
        }
        self.config = kept;
    }

    /// The accounts, shaped as the real core shapes them.
    pub fn account_list(&self) -> (list: Vec<ListedProfile>)
        ensures
            list@.len() == self.accounts@.len(),
            forall|i: int| 0 <= i < list@.len() ==> {
                let a = #[trigger] self.accounts@[i];
                match list@[i] {
                    ListedProfile::Configured { id, display_name, addr, profile_image } => {
                        &&& a.configured
                        &&& id == a.id
                        &&& display_name@ == (match config_lookup(self.config@, a.id, "displayname"@) {
                            Some(v) => v,
                            None => Seq::empty(),
                        })
                        &&& addr@ == (match config_lookup(self.config@, a.id, "configured_addr"@) {
                            Some(v) => v,
                            None => "account"@ + crate::text::decimal(a.id as nat) + "@example.org"@,
                        })
                        &&& match profile_image {
                            Some(p) => config_lookup(self.config@, a.id, "selfavatar"@) == Some(p@),
                            None => config_lookup(self.config@, a.id, "selfavatar"@) is None,
                        }
                    },
                    ListedProfile::Unconfigured { id } => !a.configured && id == a.id,
                }
            },
    {
        let mut list: Vec<ListedProfile> = Vec::new();
        let n = self.accounts.len();
        let mut i: usize = 0;
        while i < n
            invariant
                n == self.accounts@.len(),
                i <= n,
                list@.len() == i,
                forall|j: int| 0 <= j < i ==> {
                    let a = #[trigger] self.accounts@[j];
                    match list@[j] {
                        ListedProfile::Configured { id, display_name, addr, profile_image } => {
                            &&& a.configured
                            &&& id == a.id
                            &&& display_name@ == (match config_lookup(self.config@, a.id, "displayname"@) {
                                Some(v) => v,
                                None => Seq::empty(),
                            })
                            &&& addr@ == (match config_lookup(self.config@, a.id, "configured_addr"@) {
                                Some(v) => v,
                                None => "account"@ + crate::text::decimal(a.id as nat) + "@example.org"@,
                            })
                            &&& match profile_image {
                                Some(p) => config_lookup(self.config@, a.id, "selfavatar"@) == Some(p@),
                                None => config_lookup(self.config@, a.id, "selfavatar"@) is None,
                            }
                        },
                        ListedProfile::Unconfigured { id } => !a.configured && id == a.id,
                    }
                },
            decreases n - i,
        {
            let account = self.accounts[i];
            if account.configured {
                let display_name = match self.config_value(account.id, "displayname") {
                    Some(v) => v,
                    None => String::new(),
                };
                let addr = match self.config_value(account.id, "configured_addr") {
                    Some(v) => v,
                    None => {
                        let mut a = crate::text::with_number("account", account.id as u64);
                        a.append("@example.org");
                        a
                    },
                };
                let profile_image = self.config_value(account.id, "selfavatar");
                list.push(ListedProfile::Configured { id: account.id, display_name, addr, profile_image });
            } else {
                list.push(ListedProfile::Unconfigured { id: account.id });
            }
            i = i + 1;
        }
        list
    }

    /// Remove an account; when it was the selected one, the first that is
    /// left is selected, as the real core falls back.
    pub fn remove_account(&mut self, gone: u32)
        ensures
            final(self).accounts@ == old(self).accounts@.filter(|a: Account| a.id != gone),
            final(self).selected == (if old(self).selected == Some(gone) {
                if final(self).accounts@.len() > 0 {
                    Some(final(self).accounts@[0].id)
                } else {
                    None
                }
            } else {
                old(self).selected
            }),
            final(self).config == old(self).config,
            final(self).configuring == old(self).configuring,
            final(self).stopped == old(self).stopped,
    {
        let mut kept: Vec<Account> = Vec::new();
        let n = self.accounts.len();
        let mut i: usize = 0;
        proof {
            assert(self.accounts@.subrange(0, 0).filter(|a: Account| a.id != gone) =~= Seq::<Account>::empty());
        }
        while i < n
            invariant
                n == self.accounts@.len(),
                i <= n,
                self.accounts == old(self).accounts,
                kept@ == self.accounts@.subrange(0, i as int).filter(|a: Account| a.id != gone),
            decreases n - i,
        {
            proof {
                assert(self.accounts@.subrange(0, i + 1).drop_last() =~= self.accounts@.subrange(0, i as int));
                reveal(Seq::filter);
            }
            if self.accounts[i].id != gone {
                kept.push(self.accounts[i]);
            }
            i = i + 1;
        }
        proof {
            assert(self.accounts@.subrange(0, n as int) =~= self.accounts@);
        }
        self.accounts = kept;
        if self.selected == Some(gone) {
            self.selected = if self.accounts.len() > 0 {
                Some(self.accounts[0].id)
            } else {
                None
            };
        }
    }

    /// Add an unconfigured account, numbered one past how many there are,
    /// and select it, as the real core selects a new account itself.
    pub fn add_account(&mut self) -> (id: u32)
        requires
            old(self).accounts@.len() != u32::MAX,
        ensures
            id == (if old(self).accounts@.len() <= u32::MAX { old(self).accounts@.len() } else { 0 }) + 1,
            final(self).accounts@ == old(self).accounts@.push(Account { id, configured: false }),
            final(self).selected == Some(id),
            final(self).config == old(self).config,
            final(self).configuring == old(self).configuring,
            final(self).stopped == old(self).stopped,
    {
        let count = self.accounts.len();
        let next: u32 = if count <= 0xffff_ffff {
            count as u32 + 1
        } else {
            1
        };
        self.accounts.push(Account { id: next, configured: false });
        self.selected = Some(next);
        next
    }

    /// Select the account the app says it is showing, if there is one
    /// with that id; whether there was.
    pub fn select_account(&mut self, chosen: u32) -> (found: bool)
        ensures
            found == (exists|i: int| 0 <= i < old(self).accounts@.len() && old(self).accounts@[i].id == chosen),
            final(self).selected == (if found {
                Some(chosen)
            } else {
                old(self).selected
            }),
            final(self).accounts == old(self).accounts,
            final(self).config == old(self).config,
            final(self).configuring == old(self).configuring,
            final(self).stopped == old(self).stopped,
    {
        let n = self.accounts.len();
        let mut i: usize = 0;
        while i < n
            invariant
                n == self.accounts@.len(),
                i <= n,
                *self == *old(self),
                forall|j: int| 0 <= j < i ==> self.accounts@[j].id != chosen,
            decreases n - i,
        {
            if self.accounts[i].id == chosen {
                self.selected = Some(chosen);
                return true;
            }
            i = i + 1;
        }
        false
    }

    /// Configure an account: every entry with its id is configured, and
    /// the progress the core reports is returned to be queued.
    pub fn configure(&mut self, account_id: u32) -> (events: Vec<QueuedEvent>)
        ensures
            final(self).accounts@ == configured_now(old(self).accounts@, account_id),
            events@ == configure_events(account_id),
            final(self).selected == old(self).selected,
            final(self).config == old(self).config,
            final(self).configuring == old(self).configuring,
            final(self).stopped == old(self).stopped,
    {
        let n = self.accounts.len();
        let mut i: usize = 0;
        while i < n
            invariant
                n == self.accounts@.len(),
                i <= n,
                self.selected == old(self).selected,
                self.config == old(self).config,
                self.configuring == old(self).configuring,
                self.stopped == old(self).stopped,
                old(self).accounts@.len() == n,
                forall|j: int| 0 <= j < i ==> self.accounts@[j] == configured_now(old(self).accounts@, account_id)[j],
                forall|j: int| i <= j < n ==> self.accounts@[j] == old(self).accounts@[j],
            decreases n - i,
        {
            if self.accounts[i].id == account_id {
                self.accounts.set(i, Account { id: account_id, configured: true });
            }
            i = i + 1;
        }
        proof {
            assert(self.accounts@ =~= configured_now(old(self).accounts@, account_id));
        }
        let mut events = Vec::new();
        events.push(QueuedEvent { context_id: account_id, event: FakeEvent::ConfigureProgress { progress: 300 } });
        events.push(QueuedEvent { context_id: account_id, event: FakeEvent::ConfigureProgress { progress: 1000 } });
        assert(events@ =~= configure_events(account_id));
        events
    }

    /// An account's ongoing process was asked to stop.
    pub fn stop_ongoing_process(&mut self, account_id: u32)
        ensures
            final(self).stopped@ == old(self).stopped@.insert(account_id),
            final(self).accounts == old(self).accounts,
            final(self).selected == old(self).selected,
            final(self).config == old(self).config,
            final(self).configuring == old(self).configuring,
    {
        self.stopped.insert(account_id);
    }

    /// The start of a transport call or an import on an account: refused,
    /// in the real core's words, when the input stands for a failure or
    /// the account already has a process running; else the account is
    /// configuring, and whether the call is a slow one is returned.
    pub fn begin_process(&mut self, account_id: u32, input: &str, refusal: &'static str) -> (begun: Result<bool, &'static str>)
        ensures
            final(self).accounts == old(self).accounts,
            final(self).selected == old(self).selected,
            final(self).config == old(self).config,
            final(self).stopped == old(self).stopped,
            match begun {
                Ok(slow) => !has_substring(input@, "fail"@) && !old(self).configuring@.contains(account_id)
                    && slow == has_substring(input@, "slow"@)
                    && final(self).configuring@ == old(self).configuring@.insert(account_id),
                Err(reason) => final(self).configuring == old(self).configuring && if has_substring(
                    input@,
                    "fail"@,
                ) {
                    reason == refusal
                } else {
                    old(self).configuring@.contains(account_id) && reason == ALREADY_RUNNING
                },
            },
    {
        if super::input::should_fail(input) {
            return Err(refusal);
        }
        if self.configuring.contains(&account_id) {
            return Err(ALREADY_RUNNING);
        }
        self.configuring.insert(account_id);
        Ok(crate::text::contains(input, "slow"))
    }

    /// The end of a transport call or an import: the account is no longer
    /// configuring and its stop request is used up. Whether it was stopped:
    /// a slow call that was asked to stop meanwhile, unless the relay is a
    /// `deaf` one that answers anyway.
    pub fn end_process(&mut self, account_id: u32, input: &str) -> (stopped: bool)
        ensures
            stopped == (has_substring(input@, "slow"@) && !has_substring(input@, "deaf"@)
                && old(self).stopped@.contains(account_id)),
            final(self).configuring@ == old(self).configuring@.remove(account_id),
            final(self).stopped@ == old(self).stopped@.remove(account_id),
            final(self).accounts == old(self).accounts,
            final(self).selected == old(self).selected,
            final(self).config == old(self).config,
    {
        let stopped = crate::text::contains(input, "slow") && !crate::text::contains(input, "deaf")
            && self.stopped.contains(&account_id);
        self.configuring.remove(&account_id);
        self.stopped.remove(&account_id);
        stopped
    }
}

/// What the mailbox given to `add_or_update_transport` comes to.
pub enum MailboxVerdict {
    /// An address and a password: configure.
    Usable,
    /// A malformed `EnteredLoginParam`: an invalid-params error.
    Invalid,
    /// The address stands for a server that cannot be reached.
    Unreachable,
}

/// The error for a mailbox without an address or a password.
pub const MAILBOX_INVALID: &'static str = "invalid params: addr and password are required";

/// The error for a mailbox whose server cannot be reached.
pub const MAILBOX_UNREACHABLE: &'static str = "could not connect to server";

/// Whether a mailbox can be configured: it needs an address and a
/// non-empty password, and an address that does not stand for a failure.
pub fn check_mailbox(addr: &str, password: Option<&str>) -> (verdict: MailboxVerdict)
    ensures
        match verdict {
            MailboxVerdict::Invalid => addr@.len() == 0 || password is None || password.unwrap()@.len() == 0,
            MailboxVerdict::Unreachable => !(addr@.len() == 0 || password is None || password.unwrap()@.len() == 0)
                && has_substring(addr@, "fail"@),
            MailboxVerdict::Usable => !(addr@.len() == 0 || password is None || password.unwrap()@.len() == 0)
                && !has_substring(addr@, "fail"@),
        },
{
    let has_password = match password {
        Some(p) => p.unicode_len() > 0,
        None => false,
    };
    if addr.unicode_len() == 0 || !has_password {
        MailboxVerdict::Invalid
    } else if super::input::should_fail(addr) {
        MailboxVerdict::Unreachable
    } else {
        MailboxVerdict::Usable
    }
}

} // verus!
