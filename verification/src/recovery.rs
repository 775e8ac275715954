//! Retry policy for a camera session that stopped delivering frames.
//!
//! A capture stall or a buffer that cannot be requeued leaves the camera session
//! unusable while the daemon itself is healthy: dropping the session and opening
//! a fresh one restores the stream. A system suspend/resume cycle produces
//! exactly this.
//!
//! Retrying unconditionally would spin for as long as the camera is genuinely
//! unavailable, so the attempts are spaced by a doubling backoff and bounded.
//! Once the bound is reached the daemon stops, leaving a restart (and the
//! failure record) to the service manager.

use vstd::arithmetic::power2::pow2;
use vstd::prelude::*;

verus! {

/// Consecutive failed attempts after which recovery is abandoned.
pub const MAX_ATTEMPTS: u32 = 5;

/// Delay before the second attempt, in seconds; doubled for each further
/// consecutive failure. The first attempt is immediate: a stale session after
/// resume is usually replaced successfully on the first try.
pub const BASE_BACKOFF: u64 = 1;

/// Upper bound on the delay between attempts, in seconds.
pub const MAX_BACKOFF: u64 = 8;

/// What to do after a camera session was lost.
#[derive(Debug, Clone, Copy, PartialEq, Eq, Structural)]
pub enum Action {
    /// Wait this many seconds, then open a fresh session. The caller keeps the
    /// output device fed while waiting so a consumer sees a paused stream rather
    /// than a dead device.
    Retry(u64),
    /// Too many consecutive failures: stop instead of retrying forever.
    GiveUp,
}

/// Seconds to wait before reopening after the `attempt`-th consecutive loss:
/// none for the first, then `BASE_BACKOFF` doubled per further loss, capped.
pub open spec fn backoff(attempt: int) -> int {
    if attempt <= 1 {
        0
    } else {
        let delay = BASE_BACKOFF * pow2((attempt - 2) as nat);
        if delay <= MAX_BACKOFF {
            delay
        } else {
            MAX_BACKOFF as int
        }
    }
}

/// The whole policy: a retry after the backoff while the bound is not exceeded.
pub open spec fn action_spec(attempt: int) -> Action {
    if attempt > MAX_ATTEMPTS {
        Action::GiveUp
    } else {
        Action::Retry(backoff(attempt) as u64)
    }
}

/// Decide what to do after the `attempt`-th consecutive lost session, counting
/// from 1 for the first loss since a session that did deliver frames. A caller
/// that labels the first loss 0 is answered like one that labels it 1.
///
/// Delays: none, then 1 s, 2 s, 4 s, 8 s, capped at [`MAX_BACKOFF`].
pub fn action(attempt: u32) -> (next: Action)
    ensures
        next == action_spec(attempt as int),
{
    let attempt: u32 = if attempt < 1 { 1 } else { attempt };
    if attempt > MAX_ATTEMPTS {
        return Action::GiveUp;
    }
    if attempt == 1 {
        return Action::Retry(0);
    }
    proof {
        vstd::arithmetic::power2::lemma2_to64();
        assert(1u64 << 0u32 == 1 && 1u64 << 1u32 == 2 && 1u64 << 2u32 == 4 && 1u64 << 3u32 == 8)
            by (bit_vector);
    }
    let delay: u64 = BASE_BACKOFF * (1u64 << (attempt - 2));
    Action::Retry(if delay < MAX_BACKOFF { delay } else { MAX_BACKOFF })
}

/// Consecutive lost sessions since one that delivered frames.
#[derive(Debug, Clone, Copy, PartialEq, Eq, Structural)]
pub struct Attempts {
    pub count: u32,
}

impl Attempts {
    /// No losses yet.
    pub fn new() -> (a: Self)
        ensures
            a.count == 0,
    {
        Attempts { count: 0 }
    }

    /// Count a lost session that produced `frames` frames, and decide what to do.
    /// A session that did deliver frames was working, so its loss starts the count
    /// over rather than continuing it.
    pub fn lost(&mut self, frames: u64) -> (next: Action)
        requires
            old(self).count < u32::MAX,
        ensures
            final(self).count == counted(old(self).count as int, frames),
            next == action_spec(final(self).count as int),
    {
        if frames > 0 {
            self.count = 0;
        }
        self.count = self.count + 1;
        action(self.count)
    }
}

/// The count after a loss.
pub open spec fn counted(count: int, frames: u64) -> int {
    if frames > 0 {
        1
    } else {
        count + 1
    }
}

/// The count after a run of losses, given the frames each session produced.
pub open spec fn count_after(count: int, frames: Seq<u64>) -> int
    decreases frames.len(),
{
    if frames.len() == 0 {
        count
    } else {
        counted(count_after(count, frames.drop_last()), frames.last())
    }
}

/// Delays never shrink with further losses and never exceed the cap; the first
/// retry is immediate.
pub proof fn law_delays_grow_to_the_cap(a: int, b: int)
    requires
        1 <= a <= b <= MAX_ATTEMPTS,
    ensures
        backoff(1) == 0,
        0 <= backoff(a) <= backoff(b) <= MAX_BACKOFF,
{
    vstd::arithmetic::power2::lemma2_to64();
}

/// Recovery is abandoned exactly when the losses exceed the bound.
pub proof fn law_gives_up_exactly_past_the_bound(attempt: int)
    ensures
        action_spec(attempt) == Action::GiveUp <==> attempt > MAX_ATTEMPTS,
{
}

/// A camera that works for a while gets the full budget of attempts each time:
/// after a session that delivered frames is lost, every one of the following
/// frameless losses up to the bound is retried, and the next one gives up.
pub proof fn law_frames_restore_the_budget(count: int, earlier: Seq<u64>, good: u64, bad: Seq<u64>)
    requires
        good > 0,
        forall|i: int| 0 <= i < bad.len() ==> #[trigger] bad[i] == 0,
    ensures
        count_after(count, earlier.push(good) + bad) == 1 + bad.len(),
        action_spec(count_after(count, earlier.push(good) + bad)) == Action::GiveUp <==> bad.len()
            >= MAX_ATTEMPTS,
    decreases bad.len(),
{
    let all = earlier.push(good) + bad;
    if bad.len() == 0 {
        assert(all =~= earlier.push(good));
        assert(all.last() == good);
    } else {
        let rest = bad.drop_last();
        assert forall|i: int| 0 <= i < rest.len() implies #[trigger] rest[i] == 0 by {
            assert(rest[i] == bad[i]);
        }
        law_frames_restore_the_budget(count, earlier, good, rest);
        assert(all.drop_last() =~= earlier.push(good) + rest);
        assert(all.last() == bad[bad.len() - 1]);
    }
}

/// The first reopening is immediate, the second waits a second, and each further one twice
/// as long as the one before; the sixth loss in a row gives up. A first loss labelled
/// nought is answered as one labelled one.
pub proof fn law_each_delay_doubles(attempt: int)
    ensures
        action_spec(0) == action_spec(1),
        action_spec(1) == Action::Retry(0),
        action_spec(2) == Action::Retry(1),
        2 <= attempt < 5 ==> (action_spec(attempt) matches Action::Retry(s) && action_spec(
            attempt + 1,
        ) == Action::Retry((2 * s) as u64)),
        0 <= attempt <= 5 ==> action_spec(attempt) is Retry,
        attempt > 5 ==> action_spec(attempt) == Action::GiveUp,
{
    vstd::arithmetic::power2::lemma2_to64();
}

/// A loss counts on from the losses before it, unless the lost session had delivered
/// frames: then it is the first.
pub proof fn law_losses_count_on(count: int, frames: u64)
    ensures
        frames == 0 ==> counted(count, frames) - count == 1,
        frames > 0 ==> counted(count, frames) == counted(0, 0),
        counted(0, 0) == 1,
{
}

} // verus!
