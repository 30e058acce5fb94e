//! Chat message validation: length, emptiness and rate limiting.

use vstd::prelude::*;
use std::collections::VecDeque;
use std::time::{Duration, Instant};
use crate::net::time::{instant_now, instant_duration_since, duration_exceeds, duration_nanos, nanos_between};

verus! {

/// Per-client sliding-window rate tracker.
#[derive(Debug)]
pub struct RateTracker {
    /// Timestamps of accepted messages within the current window.
    pub timestamps: VecDeque<Instant>,
    /// Maximum number of messages allowed within `window`.
    pub max_count: u32,
    /// Duration of the sliding window.
    pub window: Duration,
}

/// The index of the first of `ages` from `i` on that is within `window`
/// (at most `window` long), or `ages.len()` if every one from `i` on is
/// longer.
pub open spec fn first_fresh(ages: Seq<Duration>, window: Duration, i: int) -> int
    decreases ages.len() - i,
{
    if i < 0 || i >= ages.len() || duration_nanos(ages[i]) <= duration_nanos(window) {
        i
    } else {
        first_fresh(ages, window, i + 1)
    }
}

/// What [`RateTracker::allow_at`] does at instant `now`, where `ages[i]` is
/// the time from `before[i]` to `now`: the leading timestamps older than
/// `window` are evicted (oldest first, up to the first one that is not); the
/// message is allowed exactly when fewer than `max_count` timestamps remain,
/// and then `now` is appended.
pub open spec fn admits(
    before: Seq<Instant>,
    ages: Seq<Duration>,
    window: Duration,
    max_count: u32,
    now: Instant,
    after: Seq<Instant>,
    allowed: bool,
) -> bool {
    let kept = before.subrange(first_fresh(ages, window, 0), before.len() as int);
    &&& allowed == (kept.len() < max_count)
    &&& after == if allowed { kept.push(now) } else { kept }
}

/// Whether `ages` are the times from each of `before` to `now`.
pub open spec fn ages_at_instant(before: Seq<Instant>, now: Instant, ages: Seq<Duration>) -> bool {
    &&& ages.len() == before.len()
    &&& forall|i: int| 0 <= i < before.len() ==> duration_nanos(#[trigger] ages[i]) == nanos_between(now, before[i])
}

/// Whether a call of [`RateTracker::allow`] went from timestamps `before`
/// to `after` answering `allowed`: it is [`admits`] for some instant `now`
/// the clock gave, with the ages of the timestamps the times from each of
/// them to `now`.
pub open spec fn allow_outcome(
    before: Seq<Instant>,
    after: Seq<Instant>,
    window: Duration,
    max_count: u32,
    allowed: bool,
) -> bool {
    exists|ages: Seq<Duration>, now: Instant|
        #![trigger admits(before, ages, window, max_count, now, after, allowed)]
        ages_at_instant(before, now, ages) && admits(before, ages, window, max_count, now, after, allowed)
}

impl RateTracker {
    /// Creates a new tracker allowing `max_count` messages per `window`.
    pub fn new(max_count: u32, window: Duration) -> (r: Self)
        ensures
            r.timestamps@ == Seq::<Instant>::empty(),
            r.max_count == max_count,
            r.window == window,
    {
        RateTracker { timestamps: VecDeque::new(), max_count, window }
    }

    /// The ages at `now` of the recorded timestamps, oldest first.
    fn ages_at(&self, now: &Instant) -> (r: Vec<Duration>)
        ensures
            ages_at_instant(self.timestamps@, *now, r@),
    {
        let mut ages: Vec<Duration> = Vec::new();
        let mut i: usize = 0;
        while i < self.timestamps.len()
            invariant
                i <= self.timestamps@.len(),
                ages@.len() == i,
                forall|j: int| 0 <= j < i ==> duration_nanos(#[trigger] ages@[j]) == nanos_between(*now, self.timestamps@[j]),
            decreases self.timestamps@.len() - i,
        {
            ages.push(instant_duration_since(now, &self.timestamps[i]));
            i = i + 1;
        }
        ages
    }

    /// The decision of [`RateTracker::allow`] at instant `now`, given the age
    /// of each recorded timestamp at `now`: evicts the leading timestamps
    /// older than the window, then records `now` and returns `true` if fewer
    /// than `max_count` remain, or returns `false`.
    pub fn allow_at(&mut self, now: Instant, ages: &Vec<Duration>) -> (r: bool)
        requires
            ages@.len() == old(self).timestamps@.len(),
        ensures
            admits(old(self).timestamps@, ages@, old(self).window, old(self).max_count, now, final(self).timestamps@, r),
            final(self).max_count == old(self).max_count,
            final(self).window == old(self).window,
    {
        let ghost before = self.timestamps@;
        let mut i: usize = 0;
        while i < ages.len() && duration_exceeds(&ages[i], &self.window)
            invariant
                i <= ages@.len(),
                ages@.len() == before.len(),
                self.timestamps@ == before.subrange(i as int, before.len() as int),
                self.max_count == old(self).max_count,
                self.window == old(self).window,
                first_fresh(ages@, self.window, 0) == first_fresh(ages@, self.window, i as int),
            decreases ages@.len() - i,
        {
            self.timestamps.pop_front();
            i = i + 1;
            proof {
                assert(self.timestamps@ =~= before.subrange(i as int, before.len() as int));
            }
        }
        if self.timestamps.len() as u64 >= self.max_count as u64 {
            return false;
        }
        self.timestamps.push_back(now);
        true
    }

    /// Evicts the timestamps older than the window, then returns `true` and
    /// records the current instant if fewer than `max_count` remain, or
    /// `false` if the limit is reached. The instant is a reading of the
    /// clock; the age of each timestamp is the time from it to that instant,
    /// and what is done with them is [`RateTracker::allow_at`].
    pub fn allow(&mut self) -> (r: bool)
        ensures
            allow_outcome(old(self).timestamps@, final(self).timestamps@, old(self).window, old(self).max_count, r),
            final(self).max_count == old(self).max_count,
            final(self).window == old(self).window,
            r ==> final(self).timestamps@.len() <= final(self).max_count,
    {
        let now = instant_now();
        let ages = self.ages_at(&now);
        let ghost before = self.timestamps@;
        let r = self.allow_at(now, &ages);
        proof {
            assert(admits(before, ages@, self.window, self.max_count, now, self.timestamps@, r));
        }
        r
    }
}

/// Reason a chat message was rejected by the server.
#[derive(Debug, Clone, Copy, PartialEq, Eq, Structural)]
pub enum ChatRejection {
    /// Message exceeds the configured maximum length.
    TooLong,
    /// Message is empty or whitespace-only.
    Empty,
    /// Client exceeded the per-window rate limit.
    RateLimited,
}

/// Whether `t` is `s` with its leading and trailing white space removed:
/// `t == s[a..b]`, everything before `a` and from `b` on is white space, and
/// `t`, when not empty, starts and ends with a character that is not.
pub open spec fn is_trim_of(s: Seq<char>, t: Seq<char>) -> bool {
    exists|a: int, b: int|
        #![trigger s.subrange(a, b)]
        trim_bounds(s, t, a, b)
}

/// The bounds `a..b` witness that `t` is `s` trimmed.
pub open spec fn trim_bounds(s: Seq<char>, t: Seq<char>, a: int, b: int) -> bool {
    &&& 0 <= a <= b <= s.len()
    &&& t == s.subrange(a, b)
    &&& forall|i: int| 0 <= i < a ==> #[trigger] is_white_space(s[i])
    &&& forall|i: int| b <= i < s.len() ==> #[trigger] is_white_space(s[i])
    &&& a < b ==> !is_white_space(s[a]) && !is_white_space(s[b - 1])
}

/// Whether `c` has the Unicode White_Space property, the characters that
/// `str::trim` removes.
pub open spec fn is_white_space(c: char) -> bool {
    let n = c as u32;
    ||| 0x9 <= n <= 0xd
    ||| n == 0x20
    ||| n == 0x85
    ||| n == 0xa0
    ||| n == 0x1680
    ||| 0x2000 <= n <= 0x200a
    ||| n == 0x2028
    ||| n == 0x2029
    ||| n == 0x202f
    ||| n == 0x205f
    ||| n == 0x3000
}

/// Whether every character of `s` is white space (so also when `s` is empty).
pub open spec fn all_white_space(s: Seq<char>) -> bool {
    forall|i: int| 0 <= i < s.len() ==> #[trigger] is_white_space(s[i])
}

/// `str::trim`: `s` without its leading and trailing White_Space
/// characters.
#[verifier::external_body]
fn trim(s: &str) -> (r: &str)
    ensures
        is_trim_of(s@, r@),
{
    s.trim()
}

/// Checks a chat message against the server's rules: at most
/// `max_message_length` bytes, not empty or white space only, and within the
/// client's rate limit. The rate tracker is consulted, and a timestamp
/// recorded, only for a message that passes the first two checks.
pub fn validate_chat_message(max_message_length: usize, rate_tracker: &mut RateTracker, content: &str) -> (r: Result<
    (),
    ChatRejection,
>)
    ensures
        content.len() > max_message_length ==> r == Err::<(), ChatRejection>(ChatRejection::TooLong)
            && final(rate_tracker).timestamps@ == old(rate_tracker).timestamps@,
        content.len() <= max_message_length && all_white_space(content@) ==> r == Err::<(), ChatRejection>(
            ChatRejection::Empty,
        ) && final(rate_tracker).timestamps@ == old(rate_tracker).timestamps@,
        content.len() <= max_message_length && !all_white_space(content@) ==> (r is Ok || r == Err::<
            (),
            ChatRejection,
        >(ChatRejection::RateLimited)) && allow_outcome(
            old(rate_tracker).timestamps@,
            final(rate_tracker).timestamps@,
            old(rate_tracker).window,
            old(rate_tracker).max_count,
            r is Ok,
        ),
        final(rate_tracker).max_count == old(rate_tracker).max_count,
        final(rate_tracker).window == old(rate_tracker).window,
{
    if content.len() > max_message_length {
        return Err(ChatRejection::TooLong);
    }
    let trimmed = trim(content);
    if trimmed.is_empty() {
        proof {
            let (a, b) = choose|a: int, b: int| trim_bounds(content@, trimmed@, a, b);
            assert forall|i: int| 0 <= i < content@.len() implies #[trigger] is_white_space(content@[i]) by {
                if i < a {
                } else {
                }
            }
        }
        return Err(ChatRejection::Empty);
    }
    proof {
        let (a, b) = choose|a: int, b: int| trim_bounds(content@, trimmed@, a, b);
        assert(!is_white_space(content@[a]));
    }
    if !rate_tracker.allow() {
        return Err(ChatRejection::RateLimited);
    }
    Ok(())
}

} // verus!
