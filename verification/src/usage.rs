//! Token-usage accounting.
//!
//! [`Usage`] is the unified token tally that every provider maps its native
//! usage object into.

use vstd::prelude::*;

verus! {

/// A unified token tally for one request, or accumulated across a run.
#[derive(Debug, Clone, Copy, PartialEq, Eq, Structural)]
pub struct Usage {
    /// Uncached input tokens (tokens after the last cache breakpoint).
    pub input_tokens: u64,
    /// Generated output tokens, reasoning tokens included.
    pub output_tokens: u64,
    /// Tokens written to the prompt cache by this request.
    pub cache_create_tokens: u64,
    /// Tokens served from the prompt cache for this request.
    pub cache_read_tokens: u64,
    /// Reasoning tokens (a subset of `output_tokens`).
    pub reasoning_tokens: u64,
}

/// `a + b`, clamped to the largest `u64`.
pub open spec fn clamped_sum(a: int, b: int) -> int {
    if a + b > u64::MAX {
        u64::MAX as int
    } else {
        a + b
    }
}

impl Usage {
    /// The tally with every count at zero.
    pub open spec fn nothing() -> Usage {
        Usage {
            input_tokens: 0,
            output_tokens: 0,
            cache_create_tokens: 0,
            cache_read_tokens: 0,
            reasoning_tokens: 0,
        }
    }

    /// The field-by-field clamped sum of two tallies.
    pub open spec fn plus(self, other: Usage) -> Usage {
        Usage {
            input_tokens: clamped_sum(self.input_tokens as int, other.input_tokens as int) as u64,
            output_tokens: clamped_sum(self.output_tokens as int, other.output_tokens as int) as u64,
            cache_create_tokens: clamped_sum(
                self.cache_create_tokens as int,
                other.cache_create_tokens as int,
            ) as u64,
            cache_read_tokens: clamped_sum(
                self.cache_read_tokens as int,
                other.cache_read_tokens as int,
            ) as u64,
            reasoning_tokens: clamped_sum(
                self.reasoning_tokens as int,
                other.reasoning_tokens as int,
            ) as u64,
        }
    }

    /// No count of `self` is above the same count of `other`.
    pub open spec fn within(self, other: Usage) -> bool {
        &&& self.input_tokens <= other.input_tokens
        &&& self.output_tokens <= other.output_tokens
        &&& self.cache_create_tokens <= other.cache_create_tokens
        &&& self.cache_read_tokens <= other.cache_read_tokens
        &&& self.reasoning_tokens <= other.reasoning_tokens
    }

    /// A zeroed tally.
    #[must_use]
    pub fn zero() -> (tally: Self)
        ensures
            tally == Usage::nothing(),
    {
        Usage {
            input_tokens: 0,
            output_tokens: 0,
            cache_create_tokens: 0,
            cache_read_tokens: 0,
            reasoning_tokens: 0,
        }
    }

    /// Total input tokens across all tiers: uncached, cache write and cache
    /// read. Clamped, so no provider-sent count can overflow it.
    #[must_use]
    pub fn total_input(&self) -> (total: u64)
        ensures
            total == clamped_sum(
                self.input_tokens + self.cache_create_tokens,
                self.cache_read_tokens as int,
            ),
    {
        self.input_tokens
            .saturating_add(self.cache_create_tokens)
            .saturating_add(self.cache_read_tokens)
    }

    /// Adds another tally into this one, field by field, clamped.
    pub fn merge(&mut self, other: &Self)
        ensures
            *final(self) == old(self).plus(*other),
    {
        self.input_tokens = self.input_tokens.saturating_add(other.input_tokens);
        self.output_tokens = self.output_tokens.saturating_add(other.output_tokens);
        self.cache_create_tokens = self.cache_create_tokens.saturating_add(
            other.cache_create_tokens,
        );
        self.cache_read_tokens = self.cache_read_tokens.saturating_add(other.cache_read_tokens);
        self.reasoning_tokens = self.reasoning_tokens.saturating_add(other.reasoning_tokens);
    }
}

impl Default for Usage {
    fn default() -> (tally: Self)
        ensures
            tally == Usage::nothing(),
    {
        Usage::zero()
    }
}

/// Merging is commutative, and associative, so the order in which the steps of
/// a run are tallied does not matter.
pub proof fn merging_in_any_order_gives_one_tally(a: Usage, b: Usage, c: Usage)
    ensures
        a.plus(b) == b.plus(a),
        a.plus(b).plus(c) == a.plus(b.plus(c)),
{
}

/// The zero tally changes nothing when it is merged, on either side.
pub proof fn merging_nothing_changes_nothing(a: Usage)
    ensures
        a.plus(Usage::nothing()) == a,
        Usage::nothing().plus(a) == a,
{
}

/// A tally never shrinks when another one is merged into it.
pub proof fn merging_never_shrinks_a_tally(a: Usage, b: Usage)
    ensures
        a.within(a.plus(b)),
        b.within(a.plus(b)),
{
}

/// Merging adds every count: the sum, or the largest count where the sum is larger.
pub proof fn merging_adds_every_count(a: Usage, b: Usage)
    ensures
        ({
            let sum = a.plus(b);
            let most = u64::MAX as int;
            &&& sum.input_tokens == a.input_tokens + b.input_tokens || (sum.input_tokens == most
                && a.input_tokens + b.input_tokens > most)
            &&& sum.output_tokens == a.output_tokens + b.output_tokens || (sum.output_tokens == most
                && a.output_tokens + b.output_tokens > most)
            &&& sum.cache_create_tokens == a.cache_create_tokens + b.cache_create_tokens || (
            sum.cache_create_tokens == most && a.cache_create_tokens + b.cache_create_tokens > most)
            &&& sum.cache_read_tokens == a.cache_read_tokens + b.cache_read_tokens || (
            sum.cache_read_tokens == most && a.cache_read_tokens + b.cache_read_tokens > most)
            &&& sum.reasoning_tokens == a.reasoning_tokens + b.reasoning_tokens || (
            sum.reasoning_tokens == most && a.reasoning_tokens + b.reasoning_tokens > most)
        }),
{
}

/// A clamped sum is the sum, or the largest count where the sum is larger.
pub proof fn a_clamped_sum_is_the_nearest_count(a: int, b: int)
    ensures
        a + b <= u64::MAX ==> clamped_sum(a, b) == a + b,
        a + b >= u64::MAX ==> clamped_sum(a, b) == u64::MAX,
{
}

} // verus!
