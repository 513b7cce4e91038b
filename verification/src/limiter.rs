//! The speed limit of a task: a bucket that fills at the allowed speed and holds
//! one second's worth of tokens, one token a byte. The bucket's level, which is
//! a fraction, is kept by the caller, in floating point; the rules are here, and
//! what follows from them over time, for a level that is kept exactly.
use vstd::prelude::*;

verus! {

/// What a request for tokens leads to.
#[derive(Debug, Clone, Copy, PartialEq, Eq, Structural)]
pub enum Acquire {
    /// Nothing was asked for: the bucket is not touched.
    Nothing,
    /// The tokens are there, and are taken out of the bucket.
    Take,
    /// The caller waits until the missing tokens have come in, at this many a
    /// second, and asks again.
    Wait { per_second: u64 },
}

/// A speed limit.
#[derive(Debug, Clone, Copy, PartialEq, Eq, Structural)]
pub struct RateLimiter {
    pub rate_per_sec: u64,
}

/// The whole tokens that count, of those that have come in: the bucket holds no
/// more than one second's worth.
pub open spec fn in_bucket(rate_per_sec: u64, whole_tokens: u64) -> u64 {
    if whole_tokens > rate_per_sec {
        rate_per_sec
    } else {
        whole_tokens
    }
}

impl RateLimiter {
    /// A limit of so many bytes a second.
    pub fn new(rate_per_sec: u64) -> (limiter: Self)
        ensures
            limiter.rate_per_sec == rate_per_sec,
    {
        RateLimiter { rate_per_sec }
    }

    /// What a request for `amount` tokens leads to, when `whole_tokens` whole
    /// tokens have come in and have not been taken out.
    pub open spec fn acquires(self, amount: u64, whole_tokens: u64) -> Acquire {
        if amount == 0 {
            Acquire::Nothing
        } else if in_bucket(self.rate_per_sec, whole_tokens) >= amount {
            Acquire::Take
        } else {
            Acquire::Wait {
                per_second: if self.rate_per_sec > 0 {
                    self.rate_per_sec
                } else {
                    1
                },
            }
        }
    }

    /// What a request for `amount` tokens leads to, when `whole_tokens` whole
    /// tokens have come in and have not been taken out.
    pub fn acquire(&self, amount: u64, whole_tokens: u64) -> (step: Acquire)
        ensures
            step == self.acquires(amount, whole_tokens),
    {
        if amount == 0 {
            return Acquire::Nothing;
        }
        let level: u64 = if whole_tokens > self.rate_per_sec {
            self.rate_per_sec
        } else {
            whole_tokens
        };
        if level >= amount {
            Acquire::Take
        } else {
            let per_second: u64 = if self.rate_per_sec > 0 {
                self.rate_per_sec
            } else {
                1
            };
            Acquire::Wait { per_second }
        }
    }

    /// Changes the limit; the tokens in the bucket stay.
    pub fn set_rate(&mut self, new_rate: u64)
        ensures
            final(self).rate_per_sec == new_rate,
    {
        self.rate_per_sec = new_rate;
    }
}

/// Tokens are taken only where they are there, and never more at once than come
/// in within a second.
pub proof fn law_no_burst_beyond_one_second(limiter: RateLimiter, amount: u64, whole_tokens: u64)
    requires
        limiter.acquires(amount, whole_tokens) is Take,
    ensures
        0 < amount <= whole_tokens,
        amount <= limiter.rate_per_sec,
{
}

/// A request for more than comes in within a second waits, however many tokens
/// have come in.
pub proof fn law_more_than_one_second_waits(limiter: RateLimiter, amount: u64, whole_tokens: u64)
    requires
        amount > limiter.rate_per_sec,
    ensures
        limiter.acquires(amount, whole_tokens) is Wait,
{
}

/// A request takes its tokens at once exactly where they are there and are no
/// more than come in within a second. Where they are not, it waits at the speed
/// of the limit, and at one token a second where the limit is zero, so that it
/// always knows how long. Who asks for nothing gets nothing, and at once.
pub proof fn law_requests_are_met_or_wait(limiter: RateLimiter, amount: u64, whole_tokens: u64)
    ensures
        ({
            let step = limiter.acquires(amount, whole_tokens);
            &&& step is Nothing <==> amount == 0
            &&& step is Take <==> 0 < amount <= whole_tokens && amount <= limiter.rate_per_sec
            &&& step matches Acquire::Wait { per_second } ==> per_second >= 1 && (
            limiter.rate_per_sec >= 1 ==> per_second == limiter.rate_per_sec) && (
            limiter.rate_per_sec == 0 ==> per_second == 1)
        }),
{
}

// ---------------------------------------------------------------------------
// Over time
// ---------------------------------------------------------------------------
/// The level of a bucket some time after it was at `level`: it has filled at the
/// rate that is now in force, up to one second's worth. Time is counted in ticks,
/// `per_second` to the second, and the level in as many parts of a token.
pub open spec fn refilled(rate_per_sec: u64, level: int, ticks: int, per_second: int) -> int {
    let full = rate_per_sec * per_second;
    let filled = level + rate_per_sec * ticks;
    if filled > full {
        full
    } else {
        filled
    }
}

/// The whole tokens in a bucket at some level.
pub open spec fn whole(level: int, per_second: int) -> u64 {
    (level / per_second) as u64
}

proof fn lemma_whole(rate_per_sec: u64, level: int, ticks: int, per_second: int, amount: u64)
    requires
        per_second > 0,
        level >= 0,
        ticks >= 0,
    ensures
        ({
            let now = refilled(rate_per_sec, level, ticks, per_second);
            &&& 0 <= now <= rate_per_sec * per_second
            &&& now <= level + rate_per_sec * ticks
            &&& 0 <= now / per_second <= rate_per_sec
            &&& amount <= now / per_second <==> amount * per_second <= now
        }),
{
    let now = refilled(rate_per_sec, level, ticks, per_second);
    let q = now / per_second;
    let r = rate_per_sec as int;
    let n = amount as int;
    assert(0 <= r * ticks && 0 <= r * per_second) by (nonlinear_arith)
        requires
            r >= 0,
            ticks >= 0,
            per_second > 0,
    ;
    assert(q * per_second <= now < (q + 1) * per_second && 0 <= q) by (nonlinear_arith)
        requires
            q == now / per_second,
            per_second > 0,
            now >= 0,
    ;
    assert(q <= r) by (nonlinear_arith)
        requires
            q * per_second <= now,
            now <= r * per_second,
            per_second > 0,
    ;
    if n <= q {
        assert(n * per_second <= q * per_second) by (nonlinear_arith)
            requires
                n <= q,
                per_second > 0,
        ;
    } else {
        assert(n * per_second >= (q + 1) * per_second) by (nonlinear_arith)
            requires
                n >= q + 1,
                per_second > 0,
        ;
    }
}

/// The tokens that were saved are kept when the rate changes: a request after
/// the change is met at once exactly where it asks for no more than these and
/// what has come in since they were counted, at the new rate, and for no more
/// than one second's worth at that rate.
pub proof fn law_a_new_rate_keeps_the_tokens(
    new_rate: u64,
    level: int,
    ticks: int,
    per_second: int,
    amount: u64,
)
    requires
        per_second > 0,
        level >= 0,
        ticks >= 0,
        amount > 0,
    ensures
        ({
            let tokens = whole(refilled(new_rate, level, ticks, per_second), per_second);
            (RateLimiter { rate_per_sec: new_rate }).acquires(amount, tokens) is Take <==> amount
                * per_second <= level + new_rate * ticks && amount <= new_rate
        }),
{
    lemma_whole(new_rate, level, ticks, per_second, amount);
    let n = amount as int;
    let r = new_rate as int;
    if n <= r {
        assert(n * per_second <= r * per_second) by (nonlinear_arith)
            requires
                n <= r,
                per_second > 0,
        ;
    } else {
        assert(n * per_second > r * per_second) by (nonlinear_arith)
            requires
                n > r,
                per_second > 0,
        ;
    }
}

/// A request for tokens, some time after the one before it, while some rate is
/// in force.
pub struct Use {
    pub rate_per_sec: u64,
    pub ticks: nat,
    pub amount: u64,
}

/// The tokens that some requests have taken, and the level of the bucket after
/// them. A request that is not met takes nothing; it is made again.
pub open spec fn used(level: int, uses: Seq<Use>, per_second: int) -> (int, int)
    decreases uses.len(),
{
    if uses.len() == 0 {
        (0, level)
    } else {
        let (taken, before) = used(level, uses.drop_last(), per_second);
        let last = uses.last();
        let limiter = RateLimiter { rate_per_sec: last.rate_per_sec };
        let now = refilled(last.rate_per_sec, before, last.ticks as int, per_second);
        if limiter.acquires(last.amount, whole(now, per_second)) is Take {
            (taken + last.amount, now - last.amount * per_second)
        } else {
            (taken, now)
        }
    }
}

/// What can have come in over some requests: the rate in force times the time,
/// in parts of a token.
pub open spec fn come_in(uses: Seq<Use>) -> int
    decreases uses.len(),
{
    if uses.len() == 0 {
        0
    } else {
        come_in(uses.drop_last()) + uses.last().rate_per_sec * uses.last().ticks
    }
}

/// However the requests come and the rate changes, no more tokens are ever taken
/// than were in the bucket and have come in since, at the rates in force; and
/// the bucket never holds less than nothing, nor, after a request, more than one
/// second's worth.
pub proof fn law_limits_hold_over_time(level: int, uses: Seq<Use>, per_second: int)
    requires
        per_second > 0,
        level >= 0,
    ensures
        ({
            let (taken, left) = used(level, uses, per_second);
            &&& taken >= 0 && left >= 0
            &&& taken * per_second + left <= level + come_in(uses)
            &&& uses.len() > 0 ==> left <= uses.last().rate_per_sec * per_second
        }),
    decreases uses.len(),
{
    if uses.len() > 0 {
        law_limits_hold_over_time(level, uses.drop_last(), per_second);
        let (taken, before) = used(level, uses.drop_last(), per_second);
        let last = uses.last();
        let n = last.amount as int;
        lemma_whole(last.rate_per_sec, before, last.ticks as int, per_second, last.amount);
        assert(n * per_second >= 0) by (nonlinear_arith)
            requires
                n >= 0,
                per_second > 0,
        ;
        assert((taken + n) * per_second == taken * per_second + n * per_second) by (nonlinear_arith);
    } else {
        assert(0 * per_second == 0) by (nonlinear_arith);
    }
}

} // verus!
