//! When a feed that has failed may be asked again, and how often a failure
//! is written to the log.

use vstd::prelude::*;
use crate::arrivals::{backoff_seconds, backoff_seconds_spec};
use crate::clock::{elapsed_secs, seconds_between};
use crate::keyed::StampMap;

verus! {

/// Seconds between two log lines about the same failing source.
pub const ERROR_LOG_INTERVAL_SECS: u64 = 300;

/// Seconds after which what a feed gave is no longer kept.
pub const CACHE_TTL_SECONDS: u64 = 300;

/// What is remembered of the feeds that failed: how often in a row, and
/// until when each is left alone; and when each source of errors was last
/// written to the log. Times are clock readings in milliseconds.
pub struct FeedGuard {
    failures: StampMap,
    retry_after: StampMap,
    logged: StampMap,
}

/// The mathematical value of a [`FeedGuard`].
pub struct GuardView {
    /// Failures in a row, by feed.
    pub failures: Map<Seq<char>, nat>,
    /// The reading before which a feed is not asked again, by feed.
    pub retry_after: Map<Seq<char>, nat>,
    /// The reading of the last log line, by source.
    pub logged: Map<Seq<char>, nat>,
}

impl GuardView {
    /// Whether a feed may be asked at the reading `now`: it has not failed
    /// since it last succeeded, or its time of rest is over.
    pub open spec fn may_fetch(self, feed: Seq<char>, now: nat) -> bool {
        !self.retry_after.contains_key(feed) || now >= self.retry_after[feed]
    }

    /// How often a feed has failed in a row.
    pub open spec fn failures_of(self, feed: Seq<char>) -> nat {
        if self.failures.contains_key(feed) {
            self.failures[feed]
        } else {
            0
        }
    }

    /// The failures in a row of a feed after one more, never more than
    /// fit.
    pub open spec fn next_failures(self, feed: Seq<char>) -> nat {
        if self.failures_of(feed) >= u32::MAX {
            u32::MAX as nat
        } else {
            self.failures_of(feed) + 1
        }
    }

    /// The reading until which a feed rests after failing at the reading
    /// `now`, never more than fits.
    pub open spec fn rest_until(self, feed: Seq<char>, now: nat) -> nat {
        let until = now + 1000 * backoff_seconds_spec(self.next_failures(feed));
        if until > u64::MAX {
            u64::MAX as nat
        } else {
            until
        }
    }

    /// The guard after a feed has failed at the reading `now`.
    pub open spec fn failed(self, feed: Seq<char>, now: nat) -> GuardView {
        GuardView {
            failures: self.failures.insert(feed, self.next_failures(feed)),
            retry_after: self.retry_after.insert(feed, self.rest_until(feed, now)),
            logged: self.logged,
        }
    }

    /// The guard after a feed has succeeded: its failures are forgotten.
    pub open spec fn succeeded(self, feed: Seq<char>) -> GuardView {
        GuardView {
            failures: self.failures.remove(feed),
            retry_after: self.retry_after.remove(feed),
            logged: self.logged,
        }
    }

    /// Whether an error of a source is written to the log at the reading
    /// `now`: none was yet, or the last one is five minutes old.
    pub open spec fn may_log(self, source: Seq<char>, now: nat) -> bool {
        !self.logged.contains_key(source) || elapsed_secs(now, self.logged[source]) >= 300
    }

    /// The guard after an error of a source at the reading `now`.
    pub open spec fn noted(self, source: Seq<char>, now: nat) -> GuardView {
        if self.may_log(source, now) {
            GuardView {
                failures: self.failures,
                retry_after: self.retry_after,
                logged: self.logged.insert(source, now),
            }
        } else {
            self
        }
    }
}

impl View for FeedGuard {
    type V = GuardView;

    closed spec fn view(&self) -> GuardView {
        GuardView {
            failures: self.failures@,
            retry_after: self.retry_after@,
            logged: self.logged@,
        }
    }
}

impl FeedGuard {
    /// The parts of the guard are in order.
    pub closed spec fn wf(self) -> bool {
        &&& self.failures.wf()
        &&& self.retry_after.wf()
        &&& self.logged.wf()
    }

    /// A guard that remembers nothing.
    pub fn new() -> (g: FeedGuard)
        ensures
            g.wf(),
            g@.failures == Map::<Seq<char>, nat>::empty(),
            g@.retry_after == Map::<Seq<char>, nat>::empty(),
            g@.logged == Map::<Seq<char>, nat>::empty(),
    {
        FeedGuard { failures: StampMap::new(), retry_after: StampMap::new(), logged: StampMap::new() }
    }

    /// Whether a feed may be asked at the reading `now`.
    pub fn should_fetch(&self, feed: &str, now: u64) -> (r: bool)
        requires
            self.wf(),
        ensures
            r == self@.may_fetch(feed@, now as nat),
    {
        match self.retry_after.get(feed) {
            Some(until) => now >= until,
            None => true,
        }
    }

    /// Forgets the failures of a feed that has succeeded.
    pub fn record_success(&mut self, feed: &str)
        requires
            old(self).wf(),
        ensures
            final(self).wf(),
            final(self)@ == old(self)@.succeeded(feed@),
    {
        self.failures.remove(feed);
        self.retry_after.remove(feed);
    }

    /// Counts a failure of a feed at the reading `now` and lets the feed
    /// rest: 15 seconds after the first failure, twice as long after each
    /// further one, and never more than 300.
    pub fn record_failure(&mut self, feed: &str, now: u64)
        requires
            old(self).wf(),
        ensures
            final(self).wf(),
            final(self)@ == old(self)@.failed(feed@, now as nat),
    {
        let before: u64 = match self.failures.get(feed) {
            Some(n) => n,
            None => 0,
        };
        let count: u32 = if before >= 0xffff_ffff {
            0xffff_ffff
        } else {
            (before + 1) as u32
        };
        let rest: u64 = backoff_seconds(count);
        let until: u64 = if now > u64::MAX - 1000 * rest {
            u64::MAX
        } else {
            now + 1000 * rest
        };
        self.failures.insert(feed, count as u64);
        self.retry_after.insert(feed, until);
    }

    /// Whether an error of a source is written to the log at the reading
    /// `now`; where it is, the reading is remembered.
    pub fn note_error(&mut self, source: &str, now: u64) -> (log: bool)
        requires
            old(self).wf(),
        ensures
            final(self).wf(),
            log == old(self)@.may_log(source@, now as nat),
            final(self)@ == old(self)@.noted(source@, now as nat),
    {
        let due = match self.logged.get(source) {
            Some(last) => seconds_between(now, last) >= ERROR_LOG_INTERVAL_SECS,
            None => true,
        };
        if due {
            self.logged.insert(source, now);
        }
        due
    }
}

/// Whether what a feed gave at the reading `fetched_at` is still kept at
/// the reading `now`: for less than five minutes.
pub open spec fn is_kept(fetched_at: nat, now: nat) -> bool {
    elapsed_secs(now, fetched_at) < 300
}

/// Whether what a feed gave is still kept.
pub fn cache_entry_is_fresh(fetched_at: u64, now: u64) -> (r: bool)
    ensures
        r == is_kept(fetched_at as nat, now as nat),
{
    seconds_between(now, fetched_at) < CACHE_TTL_SECONDS
}

/// A feed that has just failed is not asked again at once.
pub proof fn lemma_failure_stops_fetching(g: GuardView, feed: Seq<char>, now: nat)
    requires
        now < u64::MAX,
    ensures
        !g.failed(feed, now).may_fetch(feed, now),
        g.failed(feed, now).failures_of(feed) >= 1,
{
}

/// A feed that has succeeded may be asked at any time, and its next
/// failure counts as the first.
pub proof fn lemma_success_allows_fetching(g: GuardView, feed: Seq<char>, now: nat)
    ensures
        g.succeeded(feed).may_fetch(feed, now),
        g.succeeded(feed).next_failures(feed) == 1,
{
}

/// No feed rests for more than five minutes.
pub proof fn lemma_rest_ends(g: GuardView, feed: Seq<char>, now: nat, later: nat)
    requires
        later >= now + 300_000,
    ensures
        g.failed(feed, now).may_fetch(feed, later),
{
}

/// What happens to one feed leaves the others as they were.
pub proof fn lemma_feeds_are_apart(g: GuardView, feed: Seq<char>, other: Seq<char>, now: nat, at: nat)
    requires
        feed != other,
    ensures
        g.failed(feed, now).may_fetch(other, at) == g.may_fetch(other, at),
        g.succeeded(feed).may_fetch(other, at) == g.may_fetch(other, at),
        g.failed(feed, now).failures_of(other) == g.failures_of(other),
{
}

} // verus!
