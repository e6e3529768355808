use vstd::prelude::*;

use crate::padding::PaddingStrategy;

verus! {

/// `n`, raised to 1 when it is 0: sizes and strides are never 0.
pub open spec fn at_least_one(n: nat) -> nat {
    if n == 0 {
        1
    } else {
        n
    }
}

/// `n`, raised to 1 when it is 0.
pub(crate) fn raise_to_one(n: usize) -> (r: usize)
    ensures
        r == at_least_one(n as nat),
        n >= 1 ==> r == n,
        n == 0 ==> r == 1,
{
    if n == 0 {
        1
    } else {
        n
    }
}

/// Raising to one changes 0 alone: every `n >= 1` is kept as it is, and the
/// result is never below 1 nor above `max(n, 1)`.
pub proof fn lemma_at_least_one_keeps_positive(n: nat)
    ensures
        n >= 1 ==> at_least_one(n) == n,
        at_least_one(0) == 1,
        at_least_one(n) >= 1,
        at_least_one(n) >= n,
        at_least_one(n) <= n + 1,
{
}

/// Configuration for sliding window operations.
#[derive(Debug, Clone)]
pub struct WindowConfig {
    pub size: usize,
    pub stride: usize,
    pub padding: PaddingStrategy,
}

impl WindowConfig {
    /// A configuration for windows of `size` elements, advancing one element
    /// at a time, without padding.
    pub fn new(size: usize) -> (config: Self)
        ensures
            config.size == size,
            config.stride == 1,
            config.padding == PaddingStrategy::NoPadding,
    {
        WindowConfig { size, stride: 1, padding: PaddingStrategy::NoPadding }
    }

    /// The same configuration advancing `stride` elements at a time; a stride
    /// of 0 is taken as 1.
    pub fn with_stride(self, stride: usize) -> (config: Self)
        ensures
            config.size == self.size,
            config.stride == at_least_one(stride as nat),
            stride >= 1 ==> config.stride == stride,
            stride == 0 ==> config.stride == 1,
            config.padding == self.padding,
    {
        let mut config = self;
        config.stride = raise_to_one(stride);
        config
    }

    /// The same configuration with another padding strategy.
    pub fn with_padding(self, padding: PaddingStrategy) -> (config: Self)
        ensures
            config.size == self.size,
            config.stride == self.stride,
            config.padding == padding,
    {
        let mut config = self;
        config.padding = padding;
        config
    }
}

} // verus!
