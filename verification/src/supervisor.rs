//! Keeping the core's server running: the backoff between restarts, when
//! to give up, and what the app says about a server that went.

use vstd::prelude::*;

use crate::text::{seq_join, texts};

verus! {

/// Seconds before the first restart.
pub const RESTART_DELAY_MIN: u64 = 1;

/// Seconds the wait between restarts doubles towards, and stops at.
pub const RESTART_DELAY_MAX: u64 = 30;

/// Seconds a server must stay up to count as having worked: the next
/// failure then backs off from the minimum again.
pub const HEALTHY_UPTIME: u64 = 60;

/// Restarts without a healthy run in between before giving up.
pub const RESTART_LIMIT: u32 = 12;

/// Seconds the app waits for the server to go at exit.
pub const SHUTDOWN_TIMEOUT: u64 = 3;

/// How many of the server's last lines are kept.
pub const LAST_WORDS_KEPT: usize = 5;

/// What the report of the server's last output starts with.
pub const LAST_WORDS_PREFIX: &'static str = "the core's last output was: ";

/// What stands between two of the server's last lines.
pub const LAST_WORDS_SEPARATOR: &'static str = " | ";

/// `2` to the power `n`.
pub open spec fn doubling(n: nat) -> nat
    decreases n,
{
    if n == 0 {
        1
    } else {
        2 * doubling((n - 1) as nat)
    }
}

/// Seconds to wait before restart number `attempt`: the minimum, doubled
/// once per attempt, and never more than the ceiling.
pub open spec fn backoff(attempt: nat) -> nat {
    let grown = (RESTART_DELAY_MIN as nat) * doubling(attempt);
    if grown < RESTART_DELAY_MAX {
        grown
    } else {
        RESTART_DELAY_MAX as nat
    }
}

proof fn lemma_doubling_grows(a: nat, b: nat)
    requires
        a <= b,
    ensures
        doubling(a) <= doubling(b),
    decreases b,
{
    if a < b {
        lemma_doubling_grows(a, (b - 1) as nat);
    }
}

/// How long to wait, in seconds, before restart number `attempt`.
pub fn restart_delay(attempt: u32) -> (seconds: u64)
    ensures
        seconds == backoff(attempt as nat),
        RESTART_DELAY_MIN <= seconds <= RESTART_DELAY_MAX,
{
    let mut grown: u64 = RESTART_DELAY_MIN;
    let mut k: u32 = 0;
    while k < attempt && grown < RESTART_DELAY_MAX
        invariant
            k <= attempt,
            grown == RESTART_DELAY_MIN * doubling(k as nat),
            grown <= 2 * RESTART_DELAY_MAX,
        decreases attempt - k,
    {
        grown = grown * 2;
        k = k + 1;
    }
    proof {
        lemma_doubling_grows(k as nat, attempt as nat);
        lemma_doubling_grows(0, attempt as nat);
    }
    if grown < RESTART_DELAY_MAX {
        grown
    } else {
        RESTART_DELAY_MAX
    }
}

/// The waits before the first `n` restarts, added up.
pub open spec fn total_backoff(n: nat) -> nat
    decreases n,
{
    if n == 0 {
        0
    } else {
        total_backoff((n - 1) as nat) + backoff((n - 1) as nat)
    }
}

/// Giving up takes longer than anything transient: the waits before the
/// restarts allowed add up to at least three minutes.
pub proof fn giving_up_outlasts_three_minutes()
    ensures
        total_backoff(RESTART_LIMIT as nat) >= 180,
{
    reveal_with_fuel(doubling, 6);
    lemma_doubling_grows(5, 6);
    lemma_doubling_grows(5, 7);
    lemma_doubling_grows(5, 8);
    lemma_doubling_grows(5, 9);
    lemma_doubling_grows(5, 10);
    lemma_doubling_grows(5, 11);
    reveal_with_fuel(total_backoff, 13);
}

/// The report of the server's last output: its last few lines joined, or
/// nothing when it said nothing.
pub open spec fn last_words_report(tail: Seq<Seq<char>>) -> Option<Seq<char>> {
    if tail.len() == 0 {
        None
    } else {
        let start = if tail.len() > LAST_WORDS_KEPT {
            tail.len() - LAST_WORDS_KEPT
        } else {
            0
        };
        Some(LAST_WORDS_PREFIX@ + seq_join(tail.subrange(start as int, tail.len() as int), LAST_WORDS_SEPARATOR@))
    }
}

/// The last few lines the server wrote to stderr, as one message, or
/// nothing when it said nothing.
pub fn last_words(tail: &[String]) -> (words: Option<String>)
    ensures
        match words {
            Some(w) => last_words_report(texts(tail@)) == Some(w@),
            None => last_words_report(texts(tail@)) is None,
        },
{
    if tail.len() == 0 {
        return None;
    }
    let start = tail.len().saturating_sub(LAST_WORDS_KEPT);
    let joined = crate::text::join_from(tail, start, LAST_WORDS_SEPARATOR);
    let mut words = LAST_WORDS_PREFIX.to_owned();
    words.append(joined.as_str());
    proof {
        assert(texts(tail@.subrange(start as int, tail@.len() as int)) =~= texts(tail@).subrange(
            start as int,
            tail@.len() as int,
        ));
    }
    Some(words)
}

} // verus!
