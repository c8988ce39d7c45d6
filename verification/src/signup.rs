//! Making a profile, or taking one over: one attempt at a time, each given
//! a deadline, and the accounts an attempt given up on is still holding.
//!
//! An attempt is an account for the profile to be built on, the display
//! name, and then the core's one long call. The reader may give up on it;
//! the core's process then still runs on the account, so the account stays
//! held until the call returns, and a retry takes another one. A result for
//! an attempt the reader is no longer waiting for is not signalled, and a
//! profile it made is removed.

use vstd::prelude::*;

use crate::idset::{contains_id, increasing, insert_id, remove_id};

verus! {

/// How long a relay is given, in seconds, in all.
pub const DEADLINE: u64 = 30;

/// How long a transfer of a profile from elsewhere is given, in seconds.
pub const TRANSFER_DEADLINE: u64 = 1800;

/// What a profile is reached through: a chatmail relay's `dcaccount:`
/// payload, or a mailbox of the reader's own.
pub enum Transport {
    /// `add_transport_from_qr`: the relay mints the address.
    Qr(String),
    /// `add_or_update_transport` with an address and its password.
    Mailbox { addr: String, password: String },
}

/// Where a profile taken over from elsewhere comes from.
pub enum Source {
    /// `get_backup`: the code another device shows.
    Device(String),
    /// `import_backup`: a backup file.
    File(String),
}

/// How taking a profile over ended.
pub enum Taken {
    /// The profile is on this device, as this account.
    Done(u32),
    /// A reason of this app's own: `not-a-backup`, `too-new` or `stalled`.
    Refused(&'static str),
    /// The core refused, in its own words.
    Failed(String),
}

/// What an attempt given up on before its long call fails with.
pub const CANCELLED: &'static str = "cancelled";

/// How an attempt at making a profile ended.
pub enum Outcome {
    /// The profile is made and the account has a working transport.
    Created(u32),
    /// The core refused, with its own words.
    Failed(String),
    /// The relay did not answer in this many seconds.
    TimedOut(u32),
}

/// An outcome, with its words as characters.
pub enum OutcomeView {
    Created(u32),
    Failed(Seq<char>),
    TimedOut(u32),
}

impl View for Outcome {
    type V = OutcomeView;

    open spec fn view(&self) -> OutcomeView {
        match self {
            Outcome::Created(account) => OutcomeView::Created(*account),
            Outcome::Failed(words) => OutcomeView::Failed(words@),
            Outcome::TimedOut(seconds) => OutcomeView::TimedOut(*seconds),
        }
    }
}

/// How taking a profile over ended, with its words as characters.
pub enum TakenView {
    Done(u32),
    Refused(Seq<char>),
    Failed(Seq<char>),
}

impl View for Taken {
    type V = TakenView;

    open spec fn view(&self) -> TakenView {
        match self {
            Taken::Done(account) => TakenView::Done(*account),
            Taken::Refused(reason) => TakenView::Refused(reason@),
            Taken::Failed(words) => TakenView::Failed(words@),
        }
    }
}

/// The attempts there have been.
pub struct Attempts {
    /// The attempt whose result the reader is waiting for: the latest
    /// begun, or 0 once cancelled.
    pub current: u64,
    /// How many have begun, which is where the next id comes from.
    pub begun: u64,
    /// Accounts whose long call has not returned yet, in increasing order.
    pub held: Vec<u32>,
}

/// One attempt at a profile.
pub struct Attempt {
    /// Which attempt this is, for the completion path to compare.
    pub id: u64,
    /// Seconds the long call is given.
    pub deadline: u64,
}

impl Attempts {
    /// The held accounts are a set, kept in increasing order.
    pub open spec fn wf(&self) -> bool {
        increasing(self.held@)
    }

    /// The accounts held.
    pub open spec fn held_set(&self) -> Set<u32> {
        self.held@.to_set()
    }

    /// No attempt yet, and nothing held.
    pub fn new() -> (a: Attempts)
        ensures
            a.wf(),
            a.current == 0,
            a.begun == 0,
            a.held@.len() == 0,
    {
        Attempts { current: 0, begun: 0, held: Vec::new() }
    }

    /// Start an attempt, which becomes the one that counts.
    pub fn begin(&mut self, deadline: u64) -> (attempt: Attempt)
        requires
            old(self).begun < u64::MAX,
        ensures
            begin_step(*old(self), *final(self), attempt, deadline),
    {
        let id = self.begun + 1;
        self.begun = id;
        self.current = id;
        Attempt { id, deadline }
    }

    /// The reader gave up: no attempt counts any more. The accounts still
    /// held are returned in increasing order, for the caller to stop the
    /// core's process on each; they stay held.
    pub fn cancel(&mut self) -> (held: Vec<u32>)
        ensures
            cancel_step(*old(self), *final(self)),
            held@ == old(self).held@,
    {
        self.current = 0;
        self.held.clone()
    }

    /// Whether `attempt` is still the one the reader is waiting for.
    pub fn is_current(&self, attempt: u64) -> (yes: bool)
        ensures
            yes == (self.current == attempt),
    {
        self.current == attempt
    }

    /// The accounts held, in increasing order.
    pub fn busy(&self) -> (held: Vec<u32>)
        ensures
            held@ == self.held@,
    {
        self.held.clone()
    }

    /// Whether `account_id` is held.
    pub fn holds(&self, account_id: u32) -> (yes: bool)
        ensures
            yes == self.held@.contains(account_id),
    {
        contains_id(&self.held, account_id)
    }

    /// Hold `account_id` for an attempt; whether it was not held before.
    pub fn hold(&mut self, account_id: u32) -> (added: bool)
        requires
            old(self).wf(),
        ensures
            final(self).wf(),
            added == !old(self).held@.contains(account_id),
            final(self).held_set() == old(self).held_set().insert(account_id),
            final(self).current == old(self).current,
            final(self).begun == old(self).begun,
    {
        insert_id(&mut self.held, account_id)
    }

    /// The account is nobody's now.
    pub fn release(&mut self, account_id: u32)
        requires
            old(self).wf(),
        ensures
            final(self).wf(),
            final(self).held_set() == old(self).held_set().remove(account_id),
            final(self).current == old(self).current,
            final(self).begun == old(self).begun,
    {
        remove_id(&mut self.held, account_id)
    }
}

impl Attempt {
    /// Which attempt this is.
    pub fn id(&self) -> (id: u64)
        ensures
            id == self.id,
    {
        self.id
    }
}

/// `after` is `before` with an attempt begun: the next id, which is now
/// the one that counts, and the same accounts held.
pub open spec fn begin_step(before: Attempts, after: Attempts, attempt: Attempt, deadline: u64) -> bool {
    &&& attempt.id == before.begun + 1
    &&& attempt.deadline == deadline
    &&& after.begun == attempt.id
    &&& after.current == attempt.id
    &&& after.held == before.held
}

/// `after` is `before` given up on: nothing counts, and the same accounts
/// are still held.
pub open spec fn cancel_step(before: Attempts, after: Attempts) -> bool {
    &&& after.current == 0
    &&& after.begun == before.begun
    &&& after.held == before.held
}

/// Of two attempts begun one after the other, the later one is the one
/// that counts and the earlier one no longer does; no two attempts share
/// an id.
pub proof fn latest_attempt_counts(
    s0: Attempts,
    s1: Attempts,
    s2: Attempts,
    first: Attempt,
    second: Attempt,
    d1: u64,
    d2: u64,
)
    requires
        begin_step(s0, s1, first, d1),
        begin_step(s1, s2, second, d2),
    ensures
        s2.current == second.id,
        s2.current != first.id,
        first.id != second.id,
        first.id < second.id,
{
}

/// A run of operations on one `Attempts`: from `states[k]` to
/// `states[k + 1]`, step `k` either begins the attempt `steps[k]` holds or,
/// like every other operation (cancelling, holding, releasing, picking an
/// account, hearing a call return), leaves the count begun as it was.
pub open spec fn attempt_history(states: Seq<Attempts>, steps: Seq<Option<Attempt>>) -> bool {
    &&& states.len() == steps.len() + 1
    &&& forall|k: int|
        0 <= k < steps.len() ==> match #[trigger] steps[k] {
            Some(attempt) => begin_step(states[k], states[k + 1], attempt, attempt.deadline),
            None => states[k + 1].begun == states[k].begun,
        }
}

proof fn begun_never_falls(states: Seq<Attempts>, steps: Seq<Option<Attempt>>, j: int, m: int)
    requires
        attempt_history(states, steps),
        0 <= j <= m < states.len(),
    ensures
        states[j].begun <= states[m].begun,
    decreases m - j,
{
    if j < m {
        begun_never_falls(states, steps, j, m - 1);
        match steps[m - 1] {
            Some(attempt) => assert(states[m].begun == attempt.id),
            None => assert(states[m].begun == states[m - 1].begun),
        }
    }
}

/// Every attempt's id is the count begun just after it began, so at least
/// 1; and of any two attempts begun, in any run of operations on one
/// `Attempts`, the later has the greater id: no two share one.
pub proof fn attempt_ids_differ(states: Seq<Attempts>, steps: Seq<Option<Attempt>>, j: int, k: int)
    requires
        attempt_history(states, steps),
        0 <= j < k < steps.len(),
        steps[j] is Some,
        steps[k] is Some,
    ensures
        steps[j].unwrap().id == states[j + 1].begun,
        steps[j].unwrap().id >= 1,
        steps[j].unwrap().id < steps[k].unwrap().id,
        steps[j].unwrap().id != steps[k].unwrap().id,
{
    begun_never_falls(states, steps, j + 1, k);
    assert(steps[j].unwrap().id == states[j + 1].begun);
    assert(steps[k].unwrap().id == states[k].begun + 1);
}

/// After a cancel no attempt counts, whichever it was, and what was held
/// is held still: the core's process is still running on those accounts.
pub proof fn cancel_leaves_no_attempt_current(s0: Attempts, s1: Attempts, attempt: Attempt, d: u64, s2: Attempts)
    requires
        begin_step(s0, s1, attempt, d),
        cancel_step(s1, s2),
    ensures
        s2.current != attempt.id,
        s2.held_set() == s1.held_set(),
{
}

/// One account as the core lists it, for the choice of where a profile
/// goes: its id, when it has one, and whether it is unconfigured.
#[derive(Clone, Copy)]
pub struct ListedAccount {
    pub id: Option<u32>,
    pub unconfigured: bool,
}

/// The first unconfigured account in `accounts` that has an id and is not
/// in `held`.
pub open spec fn first_free(accounts: Seq<ListedAccount>, held: Set<u32>) -> Option<u32>
    decreases accounts.len(),
{
    if accounts.len() == 0 {
        None
    } else if accounts[0].unconfigured && accounts[0].id is Some && !held.contains(
        accounts[0].id.unwrap(),
    ) {
        accounts[0].id
    } else {
        first_free(accounts.drop_first(), held)
    }
}

/// How the long call of an attempt came back.
pub enum CallEnd {
    /// The core answered, with this result.
    Returned(Result<(), String>),
    /// The task carrying the call went away, for this reason.
    Lost(String),
    /// The deadline passed first.
    Late,
}

/// What the page is told when an attempt at a profile ends.
pub enum ProfileSignal {
    /// `profile_created`.
    Created(u32),
    /// Nothing is told; the profile made for nobody is removed.
    Discard(u32),
    /// `profile_error`, in the core's words.
    Error(String),
    /// `profile_timed_out`, with the seconds given.
    TimedOut(u32),
    /// Nothing is told, and nothing is left to clean up.
    Quiet,
}

/// What the page is told when taking a profile over ends.
pub enum RestoreSignal {
    /// IO is started on the account and `profile_restored` is told.
    Restored(u32),
    /// Nothing is told; the profile brought over for nobody is removed.
    Discard(u32),
    /// `restore_refused`, with a reason of this app's own.
    Refused(&'static str),
    /// `restore_failed`, in the core's words.
    Failed(String),
    /// Nothing is told.
    Quiet,
}

impl Attempts {
    /// The account a profile is built on: the first unconfigured one no
    /// attempt is still holding, which is then held. `None` when there is
    /// none, and a fresh account is to be added and held instead.
    pub fn pick_free(&mut self, accounts: &[ListedAccount]) -> (picked: Option<u32>)
        requires
            old(self).wf(),
        ensures
            final(self).wf(),
            picked == first_free(accounts@, old(self).held_set()),
            final(self).held_set() == (match picked {
                Some(id) => old(self).held_set().insert(id),
                None => old(self).held_set(),
            }),
            final(self).current == old(self).current,
            final(self).begun == old(self).begun,
    {
        let n = accounts.len();
        let mut i: usize = 0;
        proof {
            assert(accounts@.subrange(0, n as int) =~= accounts@);
        }
        while i < n
            invariant
                n == accounts@.len(),
                i <= n,
                self.wf(),
                *self == *old(self),
                first_free(accounts@, self.held_set()) == first_free(
                    accounts@.subrange(i as int, n as int),
                    self.held_set(),
                ),
            decreases n - i,
        {
            let account = accounts[i];
            proof {
                assert(accounts@.subrange(i as int, n as int).drop_first() =~= accounts@.subrange(
                    i + 1,
                    n as int,
                ));
                assert(accounts@.subrange(i as int, n as int)[0] == account);
            }
            if account.unconfigured {
                if let Some(id) = account.id {
                    if !self.holds(id) {
                        self.hold(id);
                        return Some(id);
                    }
                }
            }
            i = i + 1;
        }
        None
    }

    /// The code offered for taking a profile over was checked: a refused
    /// one lets the account go again and ends the attempt, refused for the
    /// reason given; an accepted one goes on to the import with the
    /// account still held.
    pub fn after_code_check(&mut self, account_id: u32, verdict: Result<(), &'static str>) -> (ended: Option<Taken>)
        requires
            old(self).wf(),
        ensures
            final(self).wf(),
            final(self).current == old(self).current,
            final(self).begun == old(self).begun,
            match verdict {
                Ok(()) => ended is None && final(self).held == old(self).held,
                Err(reason) => ended is Some && ended.unwrap()@ == TakenView::Refused(reason@)
                    && final(self).held_set() == old(self).held_set().remove(account_id),
            },
    {
        match verdict {
            Ok(()) => None,
            Err(reason) => {
                self.release(account_id);
                Some(Taken::Refused(reason))
            },
        }
    }

    /// The name is set: go on to the long call, unless setting it failed or
    /// the reader gave up meanwhile. Then the account is let go and the
    /// attempt has failed, in the core's words or with `cancelled`.
    pub fn after_naming(&mut self, attempt: u64, account_id: u32, named: Result<(), String>) -> (ended: Option<Outcome>)
        requires
            old(self).wf(),
        ensures
            final(self).wf(),
            final(self).current == old(self).current,
            final(self).begun == old(self).begun,
            match named {
                Err(e) => ended is Some && ended.unwrap()@ == OutcomeView::Failed(e@)
                    && final(self).held_set() == old(self).held_set().remove(account_id),
                Ok(()) => if old(self).current == attempt {
                    ended is None && final(self).held == old(self).held
                } else {
                    ended is Some && ended.unwrap()@ == OutcomeView::Failed(CANCELLED@)
                        && final(self).held_set() == old(self).held_set().remove(account_id)
                },
            },
    {
        match named {
            Err(e) => {
                self.release(account_id);
                Some(Outcome::Failed(e))
            },
            Ok(()) => {
                if self.is_current(attempt) {
                    None
                } else {
                    self.release(account_id);
                    Some(Outcome::Failed(CANCELLED.to_owned()))
                }
            },
        }
    }

    /// The long call has returned: the account is nobody's now. Whether the
    /// profile it made is to be removed, because it succeeded after the
    /// attempt was given up on.
    pub fn call_returned(&mut self, account_id: u32, succeeded: bool, wanted: bool) -> (discard: bool)
        requires
            old(self).wf(),
        ensures
            final(self).wf(),
            final(self).held_set() == old(self).held_set().remove(account_id),
            final(self).current == old(self).current,
            final(self).begun == old(self).begun,
            discard == (succeeded && !wanted),
    {
        self.release(account_id);
        succeeded && !wanted
    }
}

/// A signal to the profile page, with its words as characters.
pub enum ProfileSignalView {
    Created(u32),
    Discard(u32),
    Error(Seq<char>),
    TimedOut(u32),
    Quiet,
}

impl View for ProfileSignal {
    type V = ProfileSignalView;

    open spec fn view(&self) -> ProfileSignalView {
        match self {
            ProfileSignal::Created(a) => ProfileSignalView::Created(*a),
            ProfileSignal::Discard(a) => ProfileSignalView::Discard(*a),
            ProfileSignal::Error(e) => ProfileSignalView::Error(e@),
            ProfileSignal::TimedOut(s) => ProfileSignalView::TimedOut(*s),
            ProfileSignal::Quiet => ProfileSignalView::Quiet,
        }
    }
}

/// A signal to the restore page, with its words as characters.
pub enum RestoreSignalView {
    Restored(u32),
    Discard(u32),
    Refused(Seq<char>),
    Failed(Seq<char>),
    Quiet,
}

impl View for RestoreSignal {
    type V = RestoreSignalView;

    open spec fn view(&self) -> RestoreSignalView {
        match self {
            RestoreSignal::Restored(a) => RestoreSignalView::Restored(*a),
            RestoreSignal::Discard(a) => RestoreSignalView::Discard(*a),
            RestoreSignal::Refused(r) => RestoreSignalView::Refused(r@),
            RestoreSignal::Failed(e) => RestoreSignalView::Failed(e@),
            RestoreSignal::Quiet => RestoreSignalView::Quiet,
        }
    }
}

/// The seconds a relay is given, as the `u32` the page is told: the
/// deadline, or `u32::MAX` for one that does not fit.
pub open spec fn told_seconds(deadline: u64) -> u32 {
    if deadline <= u32::MAX {
        deadline as u32
    } else {
        u32::MAX
    }
}

/// How an attempt at a profile ended, from how its long call came back:
/// the account made, the core's words, or the deadline passed.
pub fn transport_outcome(account_id: u32, end: CallEnd, deadline: u64) -> (outcome: Outcome)
    ensures
        outcome@ == (match end {
            CallEnd::Returned(Ok(())) => OutcomeView::Created(account_id),
            CallEnd::Returned(Err(e)) => OutcomeView::Failed(e@),
            CallEnd::Lost(e) => OutcomeView::Failed(e@),
            CallEnd::Late => OutcomeView::TimedOut(told_seconds(deadline)),
        }),
{
    match end {
        CallEnd::Returned(Ok(())) => Outcome::Created(account_id),
        CallEnd::Returned(Err(e)) => Outcome::Failed(e),
        CallEnd::Lost(e) => Outcome::Failed(e),
        CallEnd::Late => {
            if deadline <= u32::MAX as u64 {
                Outcome::TimedOut(deadline as u32)
            } else {
                Outcome::TimedOut(u32::MAX)
            }
        },
    }
}

/// What a code read from another device is not, in this app's words.
pub const NOT_A_BACKUP: &'static str = "not-a-backup";

/// A code from a device running a newer Delta Chat than this core reads.
pub const TOO_NEW: &'static str = "too-new";

/// A transfer that did not finish in its time.
pub const STALLED: &'static str = "stalled";

/// Whether a code read is one another device is offering a profile with,
/// from the `kind` the core classified it as (`None` when it could not).
pub fn backup_code_verdict(kind: Option<&str>) -> (verdict: Result<(), &'static str>)
    ensures
        match verdict {
            Ok(()) => kind is Some && kind.unwrap()@ == "backup2"@,
            Err(reason) => reason@ == (if kind is Some && kind.unwrap()@ == "backupTooNew"@ {
                TOO_NEW@
            } else {
                NOT_A_BACKUP@
            }) && !(kind is Some && kind.unwrap()@ == "backup2"@),
        },
{
    match kind {
        None => Err(NOT_A_BACKUP),
        Some(kind) => {
            if crate::text::same_text(kind, "backup2") {
                Ok(())
            } else if crate::text::same_text(kind, "backupTooNew") {
                proof {
                    reveal_strlit("backup2");
                    reveal_strlit("backupTooNew");
                }
                Err(TOO_NEW)
            } else {
                Err(NOT_A_BACKUP)
            }
        },
    }
}

/// How taking a profile over ended, from how the import came back, and
/// whether the half-written account is to be removed.
pub fn restore_outcome(account_id: u32, end: CallEnd) -> (result: (Taken, bool))
    ensures
        result.0@ == (match end {
            CallEnd::Returned(Ok(())) => TakenView::Done(account_id),
            CallEnd::Returned(Err(e)) => TakenView::Failed(e@),
            CallEnd::Lost(e) => TakenView::Failed(e@),
            CallEnd::Late => TakenView::Refused(STALLED@),
        }),
        result.1 == (match end {
            CallEnd::Returned(Ok(())) => false,
            CallEnd::Late => false,
            _ => true,
        }),
{
    match end {
        CallEnd::Returned(Ok(())) => (Taken::Done(account_id), false),
        CallEnd::Returned(Err(e)) => (Taken::Failed(e), true),
        CallEnd::Lost(e) => (Taken::Failed(e), true),
        CallEnd::Late => (Taken::Refused(STALLED), false),
    }
}

/// What the page hears of an attempt at a profile: the outcome when the
/// attempt is still the one it is waiting for, else nothing -- and a
/// profile made for nobody is removed.
pub fn profile_completion(wanted: bool, outcome: Outcome) -> (signal: ProfileSignal)
    ensures
        signal@ == profile_signal(wanted, outcome@),
        wanted ==> match outcome@ {
            OutcomeView::Created(a) => signal@ == ProfileSignalView::Created(a),
            OutcomeView::Failed(e) => signal@ == ProfileSignalView::Error(e),
            OutcomeView::TimedOut(s) => signal@ == ProfileSignalView::TimedOut(s),
        },
        signal@ is Quiet ==> !wanted,
{
    match outcome {
        Outcome::Created(account_id) => {
            if wanted {
                ProfileSignal::Created(account_id)
            } else {
                ProfileSignal::Discard(account_id)
            }
        },
        Outcome::Failed(err) => {
            if wanted {
                ProfileSignal::Error(err)
            } else {
                ProfileSignal::Quiet
            }
        },
        Outcome::TimedOut(seconds) => {
            if wanted {
                ProfileSignal::TimedOut(seconds)
            } else {
                ProfileSignal::Quiet
            }
        },
    }
}

/// What the page hears of taking a profile over, under the same rule as a
/// signup's.
pub fn restore_completion(wanted: bool, taken: Taken) -> (signal: RestoreSignal)
    ensures
        signal@ == (match taken@ {
            TakenView::Done(a) => if wanted {
                RestoreSignalView::Restored(a)
            } else {
                RestoreSignalView::Discard(a)
            },
            TakenView::Refused(r) => if wanted {
                RestoreSignalView::Refused(r)
            } else {
                RestoreSignalView::Quiet
            },
            TakenView::Failed(e) => if wanted {
                RestoreSignalView::Failed(e)
            } else {
                RestoreSignalView::Quiet
            },
        }),
{
    match taken {
        Taken::Done(account_id) => {
            if wanted {
                RestoreSignal::Restored(account_id)
            } else {
                RestoreSignal::Discard(account_id)
            }
        },
        Taken::Refused(reason) => {
            if wanted {
                RestoreSignal::Refused(reason)
            } else {
                RestoreSignal::Quiet
            }
        },
        Taken::Failed(err) => {
            if wanted {
                RestoreSignal::Failed(err)
            } else {
                RestoreSignal::Quiet
            }
        },
    }
}

/// The seconds a relay is given: the page's own setting, or [`DEADLINE`]
/// when it is 0.
pub fn deadline_for(profile_timeout: u32) -> (seconds: u64)
    ensures
        seconds == (if profile_timeout == 0 {
            DEADLINE
        } else {
            profile_timeout as u64
        }),
{
    if profile_timeout == 0 {
        DEADLINE
    } else {
        profile_timeout as u64
    }
}

/// A result for an attempt that has been superseded or cancelled never
/// reaches the page, and a profile it made is removed rather than kept.
pub proof fn superseded_attempts_are_never_answered(s: Attempts, attempt: Attempt, outcome: OutcomeView)
    requires
        s.current != attempt.id,
    ensures
        match outcome {
            OutcomeView::Created(a) => profile_signal(s.current == attempt.id, outcome)
                == ProfileSignalView::Discard(a),
            _ => profile_signal(s.current == attempt.id, outcome) == ProfileSignalView::Quiet,
        },
{
}

/// The page waiting for an attempt always hears how it ended: a profile
/// made is announced, a failure is told in the core's words, a deadline
/// passed is told with its seconds. Only an attempt the reader is no
/// longer waiting for ends quietly, or with its profile discarded.
pub proof fn the_awaited_attempt_is_always_answered(wanted: bool, outcome: OutcomeView)
    ensures
        wanted ==> match outcome {
            OutcomeView::Created(a) => profile_signal(wanted, outcome) == ProfileSignalView::Created(a),
            OutcomeView::Failed(e) => profile_signal(wanted, outcome) == ProfileSignalView::Error(e),
            OutcomeView::TimedOut(s) => profile_signal(wanted, outcome) == ProfileSignalView::TimedOut(s),
        },
        profile_signal(wanted, outcome) is Quiet ==> !wanted,
        !wanted ==> (profile_signal(wanted, outcome) is Quiet || profile_signal(wanted, outcome) is Discard),
{
}

/// What [`profile_completion`] tells the page.
pub open spec fn profile_signal(wanted: bool, outcome: OutcomeView) -> ProfileSignalView {
    match outcome {
        OutcomeView::Created(a) => if wanted {
            ProfileSignalView::Created(a)
        } else {
            ProfileSignalView::Discard(a)
        },
        OutcomeView::Failed(e) => if wanted {
            ProfileSignalView::Error(e)
        } else {
            ProfileSignalView::Quiet
        },
        OutcomeView::TimedOut(s) => if wanted {
            ProfileSignalView::TimedOut(s)
        } else {
            ProfileSignalView::Quiet
        },
    }
}

} // verus!
