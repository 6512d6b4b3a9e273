//! Retry and per-attempt timeout policy for provider calls.

use crate::error::ProviderError;
use std::time::Duration;
use vstd::arithmetic::power2::{lemma_pow2_strictly_increases, lemma_pow2_unfold, pow2};
use vstd::prelude::*;

verus! {

/// The nanoseconds of the longest `Duration`.
pub open spec fn longest() -> nat {
    (u64::MAX as nat) * 1_000_000_000 + 999_999_999
}

/// The whole length of a duration in nanoseconds, as `Duration::as_nanos`
/// counts it.
pub uninterp spec fn counted(d: Duration) -> nat;

/// The length of a duration in nanoseconds; none is longer than the longest.
pub open spec fn nanos(d: Duration) -> nat {
    if counted(d) <= longest() {
        counted(d)
    } else {
        longest()
    }
}

/// What `Duration::from_secs` returns.
pub uninterp spec fn seconds(secs: u64) -> Duration;

/// `Duration::from_secs`.
pub assume_specification[ std::time::Duration::from_secs ](secs: u64) -> (d: Duration)
    ensures
        d == seconds(secs),
        counted(d) == secs * 1_000_000_000,
;

/// `Duration::from_millis`.
pub assume_specification[ std::time::Duration::from_millis ](millis: u64) -> (d: Duration)
    ensures
        counted(d) == millis * 1_000_000,
;

/// `Duration::saturating_mul`: the product, or the longest duration where that
/// overflows.
pub assume_specification[ std::time::Duration::saturating_mul ](
    d: Duration,
    rhs: u32,
) -> (product: Duration)
    ensures
        nanos(product) == (if nanos(d) * (rhs as nat) > longest() {
            longest()
        } else {
            nanos(d) * (rhs as nat)
        }),
;

/// `Duration`'s `<=`: the order of the lengths.
#[verifier::external_body]
fn no_longer(a: Duration, b: Duration) -> (at_most: bool)
    ensures
        at_most == (nanos(a) <= nanos(b)),
{
    a <= b
}

/// What `{:?}` prints for a duration.
pub uninterp spec fn duration_shown(d: Duration) -> Seq<char>;

/// The standard library's `Debug` form of a duration.
#[verifier::external_body]
pub(crate) fn duration_debug(d: Duration) -> (shown: String)
    ensures
        shown@ == duration_shown(d),
{
    format!("{:?}", d)
}

/// Retry and timeout policy applied to each provider request.
#[derive(Debug, Clone, Copy)]
pub struct RetryPolicy {
    /// Retries after the first try, at most.
    pub max_retries: u32,
    /// Per-attempt timeout.
    pub timeout: Duration,
    /// Backoff before the first retry.
    pub base_backoff: Duration,
    /// Backoff ceiling.
    pub max_backoff: Duration,
}

impl Default for RetryPolicy {
    fn default() -> (policy: Self)
        ensures
            policy.max_retries == 2,
            nanos(policy.timeout) == 60_000_000_000,
            nanos(policy.base_backoff) == 250_000_000,
            nanos(policy.max_backoff) == 30_000_000_000,
    {
        RetryPolicy {
            max_retries: 2,
            timeout: Duration::from_secs(60),
            base_backoff: Duration::from_millis(250),
            max_backoff: Duration::from_secs(30),
        }
    }
}

/// Coarse classification of a failed attempt.
#[derive(Debug, Clone, Copy)]
pub enum Retryable {
    /// Transient (connection reset, timeout, 5xx): retry.
    Transient,
    /// Rate limited: retry, honouring `retry_after`.
    RateLimited {
        /// Delay that the server asked for, if any.
        retry_after: Option<Duration>,
    },
    /// Permanent: do not retry.
    Fatal,
}

/// The smaller of two numbers.
pub open spec fn least(a: nat, b: nat) -> nat {
    if a <= b {
        a
    } else {
        b
    }
}

/// The larger of two numbers.
pub open spec fn most(a: nat, b: nat) -> nat {
    if a <= b {
        b
    } else {
        a
    }
}

impl RetryPolicy {
    /// The nanoseconds to back off for at attempt `n`: the base doubled `n`
    /// times (sixteen at most), up to the ceiling.
    pub open spec fn backoff_nanos(self, n: u32) -> nat {
        let doublings: nat = if n < 16 {
            n as nat
        } else {
            16
        };
        least(
            least(nanos(self.base_backoff) * pow2(doublings), longest()),
            nanos(self.max_backoff),
        )
    }

    /// The nanoseconds to wait before retry `n`, after a failure of this class.
    pub open spec fn delay_nanos(self, n: u32, classification: Retryable) -> nat {
        match classification {
            Retryable::RateLimited { retry_after: Some(after) } => most(
                self.backoff_nanos(n),
                nanos(after),
            ),
            _ => self.backoff_nanos(n),
        }
    }

    /// Whether a classified failure should be retried.
    #[must_use]
    pub fn is_retryable(&self, r: &Retryable) -> (retry: bool)
        ensures
            retry == !(*r is Fatal),
    {
        match r {
            Retryable::Fatal => false,
            _ => true,
        }
    }

    /// Backoff for attempt `n` (from zero): exponential, up to `max_backoff`.
    #[must_use]
    pub fn backoff(&self, n: u32) -> (delay: Duration)
        ensures
            nanos(delay) == self.backoff_nanos(n),
    {
        let doublings: u32 = if n < 16 {
            n
        } else {
            16
        };
        let mut factor: u32 = 1;
        let mut i: u32 = 0;
        proof {
            vstd::arithmetic::power2::lemma2_to64();
        }
        while i < doublings
            invariant
                i <= doublings <= 16,
                factor == pow2(i as nat),
                pow2(16) == 65536,
            decreases doublings - i,
        {
            proof {
                lemma_pow2_unfold((i + 1) as nat);
                if i < 16 {
                    lemma_pow2_strictly_increases(i as nat, 16);
                }
            }
            factor = factor * 2;
            i = i + 1;
        }
        let scaled = self.base_backoff.saturating_mul(factor);
        if no_longer(scaled, self.max_backoff) {
            scaled
        } else {
            self.max_backoff
        }
    }

    /// The delay before retry `n` (from zero). A rate limit's `retry_after` is
    /// honoured by taking the larger of it and the backoff.
    #[must_use]
    pub fn retry_delay(&self, n: u32, classification: &Retryable) -> (delay: Duration)
        ensures
            nanos(delay) == self.delay_nanos(n, *classification),
    {
        let backoff = self.backoff(n);
        match classification {
            Retryable::RateLimited { retry_after: Some(after) } => if no_longer(backoff, *after) {
                *after
            } else {
                backoff
            },
            _ => backoff,
        }
    }
}

/// The class of a provider error.
pub open spec fn class_of(err: ProviderError) -> Retryable {
    match err {
        ProviderError::Transport(_) => Retryable::Transient,
        ProviderError::Api { status, kind, message, retry_after } => if status == 429 {
            Retryable::RateLimited { retry_after }
        } else if status >= 500 {
            Retryable::Transient
        } else {
            Retryable::Fatal
        },
        _ => Retryable::Fatal,
    }
}

/// Classifies a provider error: a transport failure and a 5xx status are
/// transient, 429 is a rate limit, everything else is permanent.
#[must_use]
pub fn classify(err: &ProviderError) -> (class: Retryable)
    ensures
        class == class_of(*err),
{
    match err {
        ProviderError::Transport(_) => Retryable::Transient,
        ProviderError::Api { status, kind: _, message: _, retry_after } => if *status == 429 {
            Retryable::RateLimited { retry_after: *retry_after }
        } else if *status >= 500 {
            Retryable::Transient
        } else {
            Retryable::Fatal
        },
        _ => Retryable::Fatal,
    }
}

/// The backoff never passes the ceiling, never falls below the base (or the
/// ceiling, where that is lower), and never shrinks from one attempt to a later
/// one.
pub proof fn backoff_grows_up_to_the_ceiling(policy: RetryPolicy, n: u32, m: u32)
    requires
        n <= m,
    ensures
        policy.backoff_nanos(m) <= nanos(policy.max_backoff),
        policy.backoff_nanos(n) <= policy.backoff_nanos(m),
        policy.backoff_nanos(n) >= least(nanos(policy.base_backoff), nanos(policy.max_backoff)),
{
    let a: nat = if n < 16 {
        n as nat
    } else {
        16
    };
    let b: nat = if m < 16 {
        m as nat
    } else {
        16
    };
    if a < b {
        lemma_pow2_strictly_increases(a, b);
    }
    vstd::arithmetic::power2::lemma2_to64();
    if a > 0 {
        lemma_pow2_strictly_increases(0, a);
    }
    let base = nanos(policy.base_backoff);
    assert(base * pow2(a) <= base * pow2(b)) by (nonlinear_arith)
        requires
            pow2(a) <= pow2(b),
    ;
    assert(base <= base * pow2(a)) by (nonlinear_arith)
        requires
            pow2(a) >= 1,
    ;
}

/// A retry never comes sooner than the server asked, nor sooner than the
/// backoff.
pub proof fn a_rate_limit_is_waited_out(policy: RetryPolicy, n: u32, after: Duration)
    ensures
        policy.delay_nanos(n, Retryable::RateLimited { retry_after: Some(after) }) >= nanos(after),
        policy.delay_nanos(n, Retryable::RateLimited { retry_after: Some(after) })
            >= policy.backoff_nanos(n),
{
}

/// What a failure is depends on who failed. A server's own failure, any status from
/// 500 up, may pass, and so may a broken connection; too many requests may once the
/// server's delay is over; every other status, and every other error, stays.
pub proof fn the_status_decides_over_a_retry(err: ProviderError)
    ensures
        err is Transport ==> class_of(err) is Transient,
        !(err is Transport) && !(err is Api) ==> class_of(err) is Fatal,
        err matches ProviderError::Api { status, kind, message, retry_after } ==> {
            &&& 500 <= status ==> class_of(err) is Transient
            &&& status < 500 && status != 429 ==> class_of(err) is Fatal
            &&& status == 429 ==> class_of(err) == (Retryable::RateLimited { retry_after })
        },
{
}

/// Two API errors with one status are of one class, up to the delay that a rate
/// limit asks for; what a server writes about the failure does not count. Where one
/// server failure may be retried, so may every other.
pub proof fn errors_of_one_status_are_of_one_class(a: ProviderError, b: ProviderError)
    requires
        a is Api,
        b is Api,
    ensures
        a->status == b->status && a->retry_after == b->retry_after ==> class_of(a) == class_of(b),
        a->status == b->status ==> (class_of(a) is Fatal == class_of(b) is Fatal),
        a->status >= 500 && b->status >= 500 ==> class_of(a) == class_of(b),
{
}

/// The backoff starts with the base and doubles with every attempt until it meets
/// the ceiling, or has doubled sixteen times.
pub proof fn the_backoff_doubles(policy: RetryPolicy, n: u32)
    ensures
        policy.backoff_nanos(0) == least(nanos(policy.base_backoff), nanos(policy.max_backoff)),
        n < 16 ==> policy.backoff_nanos((n + 1) as u32) == least(
            2 * policy.backoff_nanos(n),
            nanos(policy.max_backoff),
        ),
        n >= 16 ==> policy.backoff_nanos(n) == policy.backoff_nanos(16),
{
    vstd::arithmetic::power2::lemma2_to64();
    let base = nanos(policy.base_backoff);
    assert(base * pow2(0) == base) by (nonlinear_arith)
        requires
            pow2(0) == 1,
    ;
    if n < 16 {
        lemma_pow2_unfold((n + 1) as nat);
        let p = pow2(n as nat);
        assert(base * (2 * p) == 2 * (base * p)) by (nonlinear_arith);
    }
}

/// The wait before a retry is the backoff, unless a rate limit asked for longer:
/// then it is what was asked for, no more and no less.
pub proof fn a_retry_waits_for_the_longer_of_the_two(
    policy: RetryPolicy,
    n: u32,
    class: Retryable,
)
    ensures
        !(class is RateLimited) ==> policy.delay_nanos(n, class) == policy.backoff_nanos(n),
        class matches Retryable::RateLimited { retry_after } ==> match retry_after {
            None => policy.delay_nanos(n, class) == policy.backoff_nanos(n),
            Some(after) => {
                &&& nanos(after) >= policy.backoff_nanos(n) ==> policy.delay_nanos(n, class)
                    == nanos(after)
                &&& nanos(after) <= policy.backoff_nanos(n) ==> policy.delay_nanos(n, class)
                    == policy.backoff_nanos(n)
            },
        },
{
}

} // verus!
