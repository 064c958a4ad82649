//! The randomized daily notification scheduler: a persisted pair of
//! timestamps (`last`, `next`). A poll that finds the clock past `next`
//! fires once and draws a fresh `next` at a random minute between 6:30 and
//! 12:00, on the following calendar day if a send already happened today.
//! Timestamps are epoch seconds of the local clock.
use rand::Rng;
use vstd::arithmetic::div_mod::lemma_fundamental_div_mod;
use vstd::prelude::*;

verus! {

/// Seconds in one calendar day.
pub const DAY_SECONDS: u64 = 86400;

/// The first minute of the send window: 6:30.
pub const SEND_WINDOW_START_MINUTE: u64 = 390;

/// The last minute of the send window: 12:00.
pub const SEND_WINDOW_END_MINUTE: u64 = 720;

/// When the scheduler fired last and when it fires next.
#[derive(Clone, Copy, Debug, PartialEq, Eq, Structural)]
pub struct SendTime {
    pub last: u64,
    pub next: u64,
}

/// Relies on rand's `thread_rng` and `Rng::gen_range` over an inclusive
/// range: the draw lies inside the bounds; nothing else is promised of a
/// random value.
#[verifier::external_body]
fn random_send_minute() -> (m: u64)
    ensures
        SEND_WINDOW_START_MINUTE <= m <= SEND_WINDOW_END_MINUTE,
{
    rand::thread_rng().gen_range(SEND_WINDOW_START_MINUTE..=SEND_WINDOW_END_MINUTE)
}

/// The calendar day an epoch-second timestamp falls on.
pub open spec fn spec_day_of_secs(t: int) -> int {
    t / (DAY_SECONDS as int)
}

/// The timestamp the scheduler fires at next: minute-of-day `minute`, on
/// the day after `now`'s if `last` already lies on `now`'s day (at most
/// one send per day), else on `now`'s own day (a missed check catches up).
pub open spec fn spec_next_send(last: int, now: int, minute: int) -> int {
    let day = if spec_day_of_secs(last) == spec_day_of_secs(now) {
        spec_day_of_secs(now) + 1
    } else {
        spec_day_of_secs(now)
    };
    day * (DAY_SECONDS as int) + minute * 60
}

/// One poll of the scheduler: the new `last`, the new `next`, and whether
/// the poll fires. A freshly initialized state (`last == next`) only draws
/// a fresh `next`; a poll past `next` fires once and re-arms; any other
/// poll changes nothing.
pub open spec fn spec_sched_step(last: int, next: int, now: int, minute: int) -> (int, int, bool) {
    if last == next {
        (last, spec_next_send(last, now, minute), false)
    } else if now > next {
        (next, spec_next_send(next, now, minute), true)
    } else {
        (last, next, false)
    }
}

impl SendTime {
    pub fn new(last: u64, next: u64) -> (r: SendTime)
        ensures
            r.last == last,
            r.next == next,
    {
        SendTime { last, next }
    }

    /// Re-arms the scheduler deterministically from an injected minute;
    /// see `spec_next_send`.
    pub fn set_next_with(&mut self, now: u64, minute: u64)
        requires
            minute <= SEND_WINDOW_END_MINUTE,
            now <= u64::MAX - 2 * DAY_SECONDS,
        ensures
            final(self).last == old(self).last,
            final(self).next == spec_next_send(
                old(self).last as int,
                now as int,
                minute as int,
            ),
    {
        proof {
            lemma_fundamental_div_mod(now as int, DAY_SECONDS as int);
        }
        let today = now / DAY_SECONDS;
        let last_day = self.last / DAY_SECONDS;
        let day = if last_day == today {
            today + 1
        } else {
            today
        };
        self.next = day * DAY_SECONDS + minute * 60;
    }

    /// One poll with an injected minute, for deterministic callers and
    /// tests; see `spec_sched_step`.
    pub fn is_go_time_with(&mut self, now: u64, minute: u64) -> (due: bool)
        requires
            minute <= SEND_WINDOW_END_MINUTE,
            now <= u64::MAX - 2 * DAY_SECONDS,
        ensures
            ({
                let step = spec_sched_step(
                    old(self).last as int,
                    old(self).next as int,
                    now as int,
                    minute as int,
                );
                &&& final(self).last == step.0
                &&& final(self).next == step.1
                &&& due == step.2
            }),
    {
        if self.last == self.next {
            self.set_next_with(now, minute);
            return false;
        }
        if now > self.next {
            self.last = self.next;
            self.set_next_with(now, minute);
            return true;
        }
        false
    }

    /// One poll of the scheduler, drawing the random send minute. Whatever
    /// minute comes back lies in the send window, and the poll behaves as
    /// `spec_sched_step` for that minute. The caller persists the state.
    pub fn is_go_time(&mut self, now: u64) -> (due: bool)
        requires
            now <= u64::MAX - 2 * DAY_SECONDS,
        ensures
            exists|m: int|
                #![trigger spec_sched_step(old(self).last as int, old(self).next as int, now as int, m)]
                {
                    let step = spec_sched_step(
                        old(self).last as int,
                        old(self).next as int,
                        now as int,
                        m,
                    );
                    &&& SEND_WINDOW_START_MINUTE <= m <= SEND_WINDOW_END_MINUTE
                    &&& final(self).last == step.0
                    &&& final(self).next == step.1
                    &&& due == step.2
                },
    {
        let minute = random_send_minute();
        let due = self.is_go_time_with(now, minute);
        proof {
            let m = minute as int;
            assert({
                let step = spec_sched_step(
                    old(self).last as int,
                    old(self).next as int,
                    now as int,
                    m,
                );
                &&& SEND_WINDOW_START_MINUTE <= m <= SEND_WINDOW_END_MINUTE
                &&& final(self).last == step.0
                &&& final(self).next == step.1
                &&& due == step.2
            });
        }
        due
    }
}

/// Two polls in immediate succession that never cross `next` both come
/// back not due, whatever minutes the scheduler draws.
pub proof fn lemma_not_due_before_next(
    last: int,
    next: int,
    now1: int,
    now2: int,
    m1: int,
    m2: int,
)
    requires
        now1 <= next,
        now2 <= spec_sched_step(last, next, now1, m1).1,
    ensures
        !spec_sched_step(last, next, now1, m1).2,
        !{
            let s1 = spec_sched_step(last, next, now1, m1);
            spec_sched_step(s1.0, s1.1, now2, m2).2
        },
{
}

/// Once the clock passes `next`, exactly one poll fires: that poll comes
/// back due, and every later poll that does not cross the freshly drawn
/// `next` comes back not due.
pub proof fn lemma_due_fires_once(
    last: int,
    next: int,
    now1: int,
    now2: int,
    m1: int,
    m2: int,
)
    requires
        last != next,
        now1 > next,
        now2 <= spec_sched_step(last, next, now1, m1).1,
    ensures
        spec_sched_step(last, next, now1, m1).2,
        !{
            let s1 = spec_sched_step(last, next, now1, m1);
            spec_sched_step(s1.0, s1.1, now2, m2).2
        },
{
}

} // verus!
