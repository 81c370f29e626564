//! Pacing decisions for the polling loop: which source may be polled now,
//! or how long to wait.  The caller supplies the clock as a monotonic
//! seconds counter.

use vstd::prelude::*;

verus! {

/// Seconds to wait between polls of the same content source.
pub const REDDIT_SECONDS: u64 = 15;

/// Seconds to wait between status updates.
pub const STATUS_SECONDS: u64 = 300;

/// What the limiter allows next: a wait, or one source ready to poll.
#[derive(Clone, Copy, Debug, PartialEq, Eq, Structural)]
pub enum Rate {
    NoneReadyFor(u64),
    StatusReady,
    InboxReady,
    SubredditsReady,
}

/// When each source was last polled, in monotonic seconds.
#[derive(Debug)]
pub struct Ratelimiter {
    pub last_inbox: u64,
    pub last_subreddits: u64,
    pub last_status: u64,
}

/// Seconds elapsed since a past instant; zero when the clock reads earlier.
pub open spec fn elapsed(now: u64, last: u64) -> int {
    if now >= last {
        now - last
    } else {
        0
    }
}

pub open spec fn min3u(a: int, b: int, c: int) -> int {
    if a <= b && a <= c {
        a
    } else if b <= c {
        b
    } else {
        c
    }
}

/// The decision: a source is ready when its own interval has passed and at
/// least five seconds have passed since any poll at all; otherwise the wait
/// until the nearest deadline, never under five seconds while recently
/// active.
pub open spec fn spec_rate(rl: Ratelimiter, now: u64) -> Rate {
    let subreddits = elapsed(now, rl.last_subreddits);
    let inbox = elapsed(now, rl.last_inbox);
    let status = elapsed(now, rl.last_status);
    let least = min3u(subreddits, inbox, status);
    if status >= STATUS_SECONDS && least >= 5 {
        Rate::StatusReady
    } else if subreddits >= REDDIT_SECONDS && least >= 5 {
        Rate::SubredditsReady
    } else if inbox >= REDDIT_SECONDS && least >= 5 {
        Rate::InboxReady
    } else {
        let reddit_max = if inbox >= subreddits {
            inbox
        } else {
            subreddits
        };
        let reddit_secs: int = if reddit_max >= REDDIT_SECONDS {
            5
        } else {
            REDDIT_SECONDS - reddit_max
        };
        let status_secs: int = if status >= STATUS_SECONDS {
            5
        } else {
            STATUS_SECONDS - status
        };
        let next: int = if reddit_secs <= status_secs {
            reddit_secs
        } else {
            status_secs
        };
        let secs: int = if least < 5 {
            if next >= 5 {
                next
            } else {
                5
            }
        } else {
            next
        };
        Rate::NoneReadyFor(secs as u64)
    }
}

impl Ratelimiter {
    /// A limiter that reports every source ready at once: each source reads
    /// as last polled two full intervals ago (or at the epoch).
    pub fn new(now: u64) -> (r: Ratelimiter)
        ensures
            r.last_inbox == if now >= 2 * REDDIT_SECONDS {
                now - 2 * REDDIT_SECONDS
            } else {
                0
            },
            r.last_subreddits == r.last_inbox,
            r.last_status == if now >= 2 * STATUS_SECONDS {
                now - 2 * STATUS_SECONDS
            } else {
                0
            },
    {
        let reddit_back: u64 = if now >= 2 * REDDIT_SECONDS {
            now - 2 * REDDIT_SECONDS
        } else {
            0
        };
        let status_back: u64 = if now >= 2 * STATUS_SECONDS {
            now - 2 * STATUS_SECONDS
        } else {
            0
        };
        Ratelimiter {
            last_inbox: reddit_back,
            last_subreddits: reddit_back,
            last_status: status_back,
        }
    }

    /// Decides what may run at the given time.
    pub fn get(&self, now: u64) -> (r: Rate)
        ensures
            r == spec_rate(*self, now),
    {
        let subreddits: u64 = if now >= self.last_subreddits {
            now - self.last_subreddits
        } else {
            0
        };
        let inbox: u64 = if now >= self.last_inbox {
            now - self.last_inbox
        } else {
            0
        };
        let status: u64 = if now >= self.last_status {
            now - self.last_status
        } else {
            0
        };
        let least: u64 = if subreddits <= inbox && subreddits <= status {
            subreddits
        } else if inbox <= status {
            inbox
        } else {
            status
        };
        if status >= STATUS_SECONDS && least >= 5 {
            Rate::StatusReady
        } else if subreddits >= REDDIT_SECONDS && least >= 5 {
            Rate::SubredditsReady
        } else if inbox >= REDDIT_SECONDS && least >= 5 {
            Rate::InboxReady
        } else {
            let reddit_max: u64 = if inbox >= subreddits {
                inbox
            } else {
                subreddits
            };
            let reddit_secs: u64 = if reddit_max >= REDDIT_SECONDS {
                5
            } else {
                REDDIT_SECONDS - reddit_max
            };
            let status_secs: u64 = if status >= STATUS_SECONDS {
                5
            } else {
                STATUS_SECONDS - status
            };
            let next: u64 = if reddit_secs <= status_secs {
                reddit_secs
            } else {
                status_secs
            };
            let secs: u64 = if least < 5 {
                if next >= 5 {
                    next
                } else {
                    5
                }
            } else {
                next
            };
            Rate::NoneReadyFor(secs)
        }
    }

    /// Records an inbox poll at the given time.
    pub fn set_inbox(&mut self, now: u64)
        ensures
            final(self).last_inbox == now,
            final(self).last_subreddits == old(self).last_subreddits,
            final(self).last_status == old(self).last_status,
    {
        self.last_inbox = now;
    }

    /// Records a subreddit poll at the given time.
    pub fn set_subreddits(&mut self, now: u64)
        ensures
            final(self).last_subreddits == now,
            final(self).last_inbox == old(self).last_inbox,
            final(self).last_status == old(self).last_status,
    {
        self.last_subreddits = now;
    }

    /// Records a status update at the given time.
    pub fn set_status(&mut self, now: u64)
        ensures
            final(self).last_status == now,
            final(self).last_inbox == old(self).last_inbox,
            final(self).last_subreddits == old(self).last_subreddits,
    {
        self.last_status = now;
    }
}

} // verus!
