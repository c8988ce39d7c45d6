//! The state the core object keeps between calls from the page and
//! completions from the server: whether a server is up, what it was asked
//! to do that a restart has to do again, and the reader's settings.

use vstd::prelude::*;

use crate::idset::{increasing, insert_id};
use crate::signup::Attempts;
use crate::supervisor::{backoff, restart_delay, HEALTHY_UPTIME, RESTART_LIMIT};

verus! {

/// Where the core object stands with its server.
pub enum Status {
    /// Nothing started yet.
    Idle,
    /// A server is being spawned.
    Starting,
    /// The server is up.
    Ready,
    /// The server went, and another is being started.
    Reconnecting,
    /// The server went, and restarting was given up on.
    Stopped,
    /// Starting failed, for this reason.
    Error(String),
}

/// A status, with its words as characters.
pub enum StatusView {
    Idle,
    Starting,
    Ready,
    Reconnecting,
    Stopped,
    Error(Seq<char>),
}

impl View for Status {
    type V = StatusView;

    open spec fn view(&self) -> StatusView {
        match self {
            Status::Idle => StatusView::Idle,
            Status::Starting => StatusView::Starting,
            Status::Ready => StatusView::Ready,
            Status::Reconnecting => StatusView::Reconnecting,
            Status::Stopped => StatusView::Stopped,
            Status::Error(e) => StatusView::Error(e@),
        }
    }
}

/// The text the page reads for a status.
pub open spec fn status_words(s: StatusView) -> Seq<char> {
    match s {
        StatusView::Idle => "idle"@,
        StatusView::Starting => "starting"@,
        StatusView::Ready => "ready"@,
        StatusView::Reconnecting => "reconnecting"@,
        StatusView::Stopped => "stopped"@,
        StatusView::Error(e) => "error: "@ + e,
    }
}

impl Status {
    /// The text the page reads: `idle`, `starting`, `ready`,
    /// `reconnecting`, `stopped`, or `error: ` and the reason.
    pub fn text(&self) -> (t: String)
        ensures
            t@ == status_words(self@),
    {
        match self {
            Status::Idle => "idle".to_owned(),
            Status::Starting => "starting".to_owned(),
            Status::Ready => "ready".to_owned(),
            Status::Reconnecting => "reconnecting".to_owned(),
            Status::Stopped => "stopped".to_owned(),
            Status::Error(e) => {
                let mut t = "error: ".to_owned();
                t.append(e.as_str());
                t
            },
        }
    }
}

/// One of the reader's settings, applied to every account: its value, and
/// whether the page has handed one over at all.
#[derive(Clone, Copy)]
pub struct Setting {
    pub value: u32,
    pub set: bool,
}

impl Setting {
    /// Nothing handed over yet.
    pub fn unset() -> (s: Setting)
        ensures
            s.value == 0,
            !s.set,
    {
        Setting { value: 0, set: false }
    }

    /// Take a value from the page. Whether it is news, to be written to
    /// every account: a value already handed over is not.
    pub fn update(&mut self, value: u32) -> (changed: bool)
        ensures
            changed == !(old(self).set && old(self).value == value),
            changed ==> final(self).value == value && final(self).set,
            !changed ==> *final(self) == *old(self),
    {
        if self.set && self.value == value {
            return false;
        }
        self.value = value;
        self.set = true;
        true
    }
}

/// What to do once a spawn has come back.
pub enum Spawned {
    /// The server is up: drain its events, then resume IO for every
    /// account if that was asked for, and for each of these.
    Up { all: bool, accounts: Vec<u32> },
    /// A respawn failed: what to do about it.
    Retry(Gone),
    /// The first spawn failed: the app failed to start, which is reported
    /// and left alone.
    Failed,
}

/// What to do once the server has gone.
pub enum Gone {
    /// Nothing to restart: no runtime, so `start` was never called or an
    /// earlier round gave up.
    Nothing,
    /// Spawn another after this many seconds.
    RetryAfter(u64),
    /// Restarting is given up on; the reason, when there is one, is
    /// reported as a core error.
    GaveUp(Option<String>),
}

/// The core object's state, apart from the server itself.
pub struct Session {
    pub status: Status,
    /// A runtime exists: `start` has been called and not given up on.
    pub runtime: bool,
    /// A server is connected.
    pub connected: bool,
    /// The server binary `start` was given, for a restart.
    pub server_path: String,
    /// Accounts whose IO was resumed, in increasing order, to be resumed
    /// again after a restart.
    pub io_accounts: Vec<u32>,
    /// IO was resumed for every account at once.
    pub io_all: bool,
    /// Restarts since the last healthy run.
    pub restart_attempt: u32,
    /// A spawn has succeeded: a failure is now something to retry.
    pub supervising: bool,
    /// The reader's download limit, in bytes.
    pub download_limit: Setting,
    /// The reader's deletion period, in seconds.
    pub delete_device_after: Setting,
    /// Seconds a relay is given; 0 is the built-in deadline.
    pub profile_timeout: u32,
    /// The attempts at a profile there have been.
    pub attempts: Attempts,
}

/// The restart bookkeeping after the server went: `(runtime, attempt,
/// status, what to do)` from the state before, how long the server had
/// been up, and what to report if this round gives up.
pub open spec fn gone_step(runtime: bool, attempt: u32, healthy: bool) -> (bool, nat, Option<nat>) {
    if !runtime {
        (false, attempt as nat, None)
    } else {
        let from = if healthy {
            0
        } else {
            attempt as nat
        };
        if from >= RESTART_LIMIT {
            (false, from, None)
        } else {
            (true, from + 1, Some(backoff(from)))
        }
    }
}

impl Session {
    pub open spec fn wf(&self) -> bool {
        &&& increasing(self.io_accounts@)
        &&& self.attempts.wf()
        &&& self.restart_attempt <= RESTART_LIMIT
    }

    /// A fresh object: idle, nothing asked for, no settings handed over.
    pub fn new() -> (s: Session)
        ensures
            s.wf(),
            s.status@ == StatusView::Idle,
            !s.runtime,
            !s.connected,
            !s.supervising,
            !s.io_all,
            s.io_accounts@.len() == 0,
            s.restart_attempt == 0,
            s.server_path@.len() == 0,
            !s.download_limit.set,
            s.download_limit.value == 0,
            !s.delete_device_after.set,
            s.delete_device_after.value == 0,
            s.profile_timeout == 0,
            s.attempts.current == 0,
            s.attempts.begun == 0,
            s.attempts.held@.len() == 0,
    {
        Session {
            status: Status::Idle,
            runtime: false,
            connected: false,
            server_path: String::new(),
            io_accounts: Vec::new(),
            io_all: false,
            restart_attempt: 0,
            supervising: false,
            download_limit: Setting::unset(),
            delete_device_after: Setting::unset(),
            profile_timeout: 0,
            attempts: Attempts::new(),
        }
    }

    /// Whether there is a connection to make calls on.
    pub fn connection(&self) -> (up: bool)
        ensures
            up == (self.connected && self.runtime),
    {
        self.connected && self.runtime
    }

    /// Whether `start` would do anything: not when it already has.
    pub fn can_start(&self) -> (yes: bool)
        ensures
            yes == !self.runtime,
    {
        !self.runtime
    }

    /// `start` made its runtime, or failed to: with one, the server at
    /// `path` is about to be spawned, and no spawn has succeeded yet.
    pub fn started(&mut self, path: String, runtime: Result<(), String>)
        requires
            old(self).wf(),
            !old(self).runtime,
        ensures
            final(self).wf(),
            match runtime {
                Ok(()) => {
                    &&& final(self).runtime
                    &&& final(self).server_path@ == path@
                    &&& final(self).restart_attempt == 0
                    &&& !final(self).supervising
                    &&& final(self).status@ == StatusView::Starting
                },
                Err(e) => {
                    &&& !final(self).runtime
                    &&& final(self).status@ == StatusView::Error(
                        "failed to start async runtime: "@ + e@,
                    )
                },
            },
    {
        match runtime {
            Ok(()) => {
                self.server_path = path;
                self.runtime = true;
                self.restart_attempt = 0;
                self.supervising = false;
                self.status = Status::Starting;
            },
            Err(e) => {
                let mut reason = "failed to start async runtime: ".to_owned();
                reason.append(e.as_str());
                self.status = Status::Error(reason);
            },
        }
    }

    /// The server went. With no runtime there is nothing to restart.
    /// Otherwise a server that was up for [`HEALTHY_UPTIME`] resets the
    /// backoff; then either another is spawned after the backoff, or after
    /// [`RESTART_LIMIT`] restarts without a healthy run the app gives up,
    /// says `stopped`, and drops the runtime so a later `start` works.
    pub fn server_gone(&mut self, uptime: Option<u64>, failure: Option<String>) -> (next: Gone)
        requires
            old(self).wf(),
        ensures
            final(self).wf(),
            !final(self).connected,
            final(self).supervising == old(self).supervising,
            final(self).io_all == old(self).io_all,
            final(self).io_accounts == old(self).io_accounts,
            ({
                let healthy = uptime is Some && uptime.unwrap() >= HEALTHY_UPTIME;
                let (runtime, attempt, wait) = gone_step(old(self).runtime, old(self).restart_attempt, healthy);
                &&& final(self).runtime == runtime
                &&& final(self).restart_attempt == attempt
                &&& match next {
                    Gone::Nothing => !old(self).runtime && final(self).status == old(self).status,
                    Gone::RetryAfter(seconds) => old(self).runtime && wait == Some(seconds as nat)
                        && final(self).status@ == StatusView::Reconnecting,
                    Gone::GaveUp(reason) => old(self).runtime && wait is None && reason == failure
                        && final(self).status@ == StatusView::Stopped,
                }
            }),
    {
        self.connected = false;
        if !self.runtime {
            return Gone::Nothing;
        }
        let healthy = match uptime {
            Some(seconds) => seconds >= HEALTHY_UPTIME,
            None => false,
        };
        if healthy {
            self.restart_attempt = 0;
        }
        if self.restart_attempt >= RESTART_LIMIT {
            self.runtime = false;
            self.status = Status::Stopped;
            Gone::GaveUp(failure)
        } else {
            let delay = restart_delay(self.restart_attempt);
            self.restart_attempt = self.restart_attempt + 1;
            self.status = Status::Reconnecting;
            Gone::RetryAfter(delay)
        }
    }

    /// A spawn came back. A server up is `ready`, and what IO was asked
    /// for is asked for again. A failed respawn is a server gone again,
    /// reported as `could not restart the core: ` and the reason. A failed
    /// first spawn is the app failing to start: `error: ` and the reason,
    /// and the runtime dropped so a later `start` is not a no-op.
    pub fn spawned(&mut self, result: Result<(), String>) -> (next: Spawned)
        requires
            old(self).wf(),
        ensures
            final(self).wf(),
            match result {
                Ok(()) => {
                    &&& final(self).connected
                    &&& final(self).supervising
                    &&& final(self).status@ == StatusView::Ready
                    &&& final(self).runtime == old(self).runtime
                    &&& final(self).restart_attempt == old(self).restart_attempt
                    &&& next matches Spawned::Up { all, accounts } && all == old(self).io_all
                        && accounts@ == old(self).io_accounts@
                },
                Err(e) => if old(self).supervising {
                    let (runtime, attempt, wait) = gone_step(old(self).runtime, old(self).restart_attempt, false);
                    &&& !final(self).connected
                    &&& final(self).runtime == runtime
                    &&& final(self).restart_attempt == attempt
                    &&& next matches Spawned::Retry(gone) && match gone {
                        Gone::Nothing => !old(self).runtime,
                        Gone::RetryAfter(seconds) => wait == Some(seconds as nat)
                            && final(self).status@ == StatusView::Reconnecting,
                        Gone::GaveUp(reason) => wait is None && reason is Some
                            && reason.unwrap()@ == "could not restart the core: "@ + e@
                            && final(self).status@ == StatusView::Stopped,
                    }
                } else {
                    &&& !final(self).runtime
                    &&& final(self).status@ == StatusView::Error(e@)
                    &&& final(self).connected == old(self).connected
                    &&& next matches Spawned::Failed
                },
            },
    {
        match result {
            Ok(()) => {
                self.connected = true;
                self.status = Status::Ready;
                self.supervising = true;
                Spawned::Up { all: self.io_all, accounts: self.io_accounts.clone() }
            },
            Err(e) => {
                if self.supervising {
                    let mut reason = "could not restart the core: ".to_owned();
                    reason.append(e.as_str());
                    Spawned::Retry(self.server_gone(None, Some(reason)))
                } else {
                    self.runtime = false;
                    self.status = Status::Error(e);
                    Spawned::Failed
                }
            },
        }
    }

    /// IO was asked for on one account: remembered before the call, so a
    /// restart resumes it whether or not this call gets through.
    pub fn remember_io(&mut self, account_id: u32)
        requires
            old(self).wf(),
        ensures
            final(self).wf(),
            final(self).io_accounts@.to_set() == old(self).io_accounts@.to_set().insert(account_id),
            final(self).io_all == old(self).io_all,
    {
        insert_id(&mut self.io_accounts, account_id);
    }

    /// IO was asked for on every account at once.
    pub fn remember_all_io(&mut self)
        requires
            old(self).wf(),
        ensures
            final(self).wf(),
            final(self).io_all,
            final(self).io_accounts == old(self).io_accounts,
    {
        self.io_all = true;
    }
}

/// Restarting gives up only after [`RESTART_LIMIT`] tries in a row without
/// a healthy run: from a server that has just started, each of that many
/// failures in a row is retried, with the backoff for its place.
pub proof fn restarts_are_retried_until_the_limit(attempt: u32)
    requires
        attempt < RESTART_LIMIT,
    ensures
        gone_step(true, attempt, false) == (true, (attempt + 1) as nat, Some(backoff(attempt as nat))),
        gone_step(true, RESTART_LIMIT, false) == (false, RESTART_LIMIT as nat, None::<nat>),
{
}

/// A server that stayed up long enough resets the backoff: the next
/// restart waits the minimum, whatever came before.
pub proof fn a_healthy_run_resets_the_backoff(attempt: u32)
    ensures
        gone_step(true, attempt, true) == (true, 1nat, Some(backoff(0))),
        backoff(0) == crate::supervisor::RESTART_DELAY_MIN,
{
}

/// The core's key for the download limit.
pub const DOWNLOAD_LIMIT_KEY: &'static str = "download_limit";

/// The core's key for the deletion period.
pub const DELETE_DEVICE_AFTER_KEY: &'static str = "delete_device_after";

/// One config value, to be written to accounts.
pub struct ConfigWrite {
    pub key: &'static str,
    pub value: String,
}

impl Session {
    /// The page set the download limit: the value to write to every
    /// account, unless it is the one already handed over.
    pub fn set_download_limit(&mut self, bytes: u32) -> (write: Option<ConfigWrite>)
        requires
            old(self).wf(),
        ensures
            final(self).wf(),
            final(self).delete_device_after == old(self).delete_device_after,
            match write {
                Some(w) => !(old(self).download_limit.set && old(self).download_limit.value == bytes)
                    && final(self).download_limit.value == bytes && final(self).download_limit.set
                    && w.key@ == DOWNLOAD_LIMIT_KEY@ && w.value@ == crate::text::decimal(bytes as nat),
                None => old(self).download_limit.set && old(self).download_limit.value == bytes
                    && final(self).download_limit == old(self).download_limit,
            },
    {
        if self.download_limit.update(bytes) {
            Some(ConfigWrite { key: DOWNLOAD_LIMIT_KEY, value: crate::text::decimal_text(bytes as u64) })
        } else {
            None
        }
    }

    /// The page set the deletion period: the value to write to every
    /// account, unless it is the one already handed over.
    pub fn set_delete_device_after(&mut self, seconds: u32) -> (write: Option<ConfigWrite>)
        requires
            old(self).wf(),
        ensures
            final(self).wf(),
            final(self).download_limit == old(self).download_limit,
            match write {
                Some(w) => !(old(self).delete_device_after.set && old(self).delete_device_after.value
                    == seconds) && final(self).delete_device_after.value == seconds
                    && final(self).delete_device_after.set && w.key@ == DELETE_DEVICE_AFTER_KEY@
                    && w.value@ == crate::text::decimal(seconds as nat),
                None => old(self).delete_device_after.set && old(self).delete_device_after.value
                    == seconds && final(self).delete_device_after == old(self).delete_device_after,
            },
    {
        if self.delete_device_after.update(seconds) {
            Some(
                ConfigWrite {
                    key: DELETE_DEVICE_AFTER_KEY,
                    value: crate::text::decimal_text(seconds as u64),
                },
            )
        } else {
            None
        }
    }

    /// Every setting the page has handed over, for the accounts the list
    /// was just read with: the download limit first, then the deletion
    /// period. A setting never handed over is nobody's choice and is not
    /// written.
    pub fn settings_to_write(&self) -> (writes: Vec<ConfigWrite>)
        ensures
            writes@.len() == (if self.download_limit.set { 1int } else { 0int }) + (
            if self.delete_device_after.set { 1int } else { 0int }),
            self.download_limit.set ==> writes@[0].key@ == DOWNLOAD_LIMIT_KEY@ && writes@[0].value@
                == crate::text::decimal(self.download_limit.value as nat),
            self.delete_device_after.set ==> ({
                let last = writes@[writes@.len() - 1];
                last.key@ == DELETE_DEVICE_AFTER_KEY@ && last.value@ == crate::text::decimal(
                    self.delete_device_after.value as nat,
                )
            }),
    {
        let mut writes: Vec<ConfigWrite> = Vec::new();
        if self.download_limit.set {
            writes.push(
                ConfigWrite {
                    key: DOWNLOAD_LIMIT_KEY,
                    value: crate::text::decimal_text(self.download_limit.value as u64),
                },
            );
        }
        if self.delete_device_after.set {
            writes.push(
                ConfigWrite {
                    key: DELETE_DEVICE_AFTER_KEY,
                    value: crate::text::decimal_text(self.delete_device_after.value as u64),
                },
            );
        }
        writes
    }

    /// The seconds the next attempt at a profile is given.
    pub fn profile_deadline(&self) -> (seconds: u64)
        ensures
            seconds == (if self.profile_timeout == 0 {
                crate::signup::DEADLINE
            } else {
                self.profile_timeout as u64
            }),
    {
        crate::signup::deadline_for(self.profile_timeout)
    }
}

} // verus!
