//! Prompt-cache strategy.
//!
//! Providers cache on their side. The toolkit keeps a stable prefix and, where a
//! provider takes explicit breakpoints, places them by this strategy.

use vstd::prelude::*;

verus! {

/// Prompt-cache entry lifetime.
#[derive(Debug, Clone, Copy, PartialEq, Eq, Structural)]
pub enum CacheTtl {
    /// Five minutes (cheaper writes).
    FiveMin,
    /// One hour (dearer writes, longer reuse).
    OneHour,
}

impl Default for CacheTtl {
    fn default() -> (ttl: Self)
        ensures
            ttl == CacheTtl::FiveMin,
    {
        CacheTtl::FiveMin
    }
}

/// A place at which to put a cache breakpoint.
#[derive(Debug, Clone, Copy, PartialEq, Eq, Structural)]
pub enum CacheTarget {
    /// After the tool definitions.
    Tools,
    /// After the system prompt.
    System,
    /// After the most recent user message.
    LastUserMessage,
    /// After the message at this index in the history.
    MessageIndex(usize),
}

/// How prompt caching is applied to a request.
#[derive(Debug, PartialEq, Eq)]
pub enum CacheStrategy {
    /// No explicit caching.
    Off,
    /// Breakpoints are placed automatically: after the tools, after the system
    /// prompt, and on the boundary of the previous turn.
    Auto,
    /// Breakpoints at the given places.
    Breakpoints {
        /// Lifetime of the written entries.
        ttl: CacheTtl,
        /// Where to place breakpoints, up to the provider's maximum.
        points: Vec<CacheTarget>,
    },
}

/// What a [`CacheStrategy`] stands for.
#[verifier::ext_equal]
pub enum CacheStrategyView {
    /// No explicit caching.
    Off,
    /// Automatic breakpoints.
    Auto,
    /// Breakpoints at the given places.
    Breakpoints {
        /// Lifetime of the written entries.
        ttl: CacheTtl,
        /// Where to place breakpoints.
        points: Seq<CacheTarget>,
    },
}

impl View for CacheStrategy {
    type V = CacheStrategyView;

    open spec fn view(&self) -> CacheStrategyView {
        match *self {
            CacheStrategy::Off => CacheStrategyView::Off,
            CacheStrategy::Auto => CacheStrategyView::Auto,
            CacheStrategy::Breakpoints { ttl, points } => CacheStrategyView::Breakpoints {
                ttl,
                points: points@,
            },
        }
    }
}

impl Clone for CacheStrategy {
    fn clone(&self) -> (copy: Self)
        ensures
            copy@ == self@,
    {
        match self {
            CacheStrategy::Off => CacheStrategy::Off,
            CacheStrategy::Auto => CacheStrategy::Auto,
            CacheStrategy::Breakpoints { ttl, points } => {
                let copied = points.clone();
                assert(copied@ =~= points@);
                CacheStrategy::Breakpoints { ttl: *ttl, points: copied }
            },
        }
    }
}

impl Default for CacheStrategy {
    fn default() -> (strategy: Self)
        ensures
            strategy == CacheStrategy::Auto,
    {
        CacheStrategy::Auto
    }
}

} // verus!
