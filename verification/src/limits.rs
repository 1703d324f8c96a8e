//! Resource bounds of one compilation. They bound cost and failure; they do not alter the values
//! of compilations that succeed.

use vstd::prelude::*;

verus! {

#[derive(Debug, Clone, Copy, PartialEq, Eq, Structural)]
pub struct CompilerLimits {
    pub evaluation_steps: u64,
    pub call_depth: u16,
    pub expression_depth: u16,
    pub memoized_calls: usize,
}

/// The bounds with so many evaluation steps and everything else as usual.
pub open spec fn limits_of(evaluation_steps: u64) -> CompilerLimits {
    CompilerLimits {
        evaluation_steps,
        call_depth: 64,
        expression_depth: 128,
        memoized_calls: 16_384,
    }
}

impl Default for CompilerLimits {
    fn default() -> (r: CompilerLimits)
        ensures
            r == limits_of(1_000_000),
    {
        CompilerLimits {
            evaluation_steps: 1_000_000,
            call_depth: 64,
            expression_depth: 128,
            memoized_calls: 16_384,
        }
    }
}

impl From<u64> for CompilerLimits {
    fn from(evaluation_steps: u64) -> (r: CompilerLimits) {
        CompilerLimits {
            evaluation_steps,
            call_depth: 64,
            expression_depth: 128,
            memoized_calls: 16_384,
        }
    }
}

impl vstd::std_specs::convert::FromSpecImpl<u64> for CompilerLimits {
    open spec fn obeys_from_spec() -> bool {
        true
    }

    open spec fn from_spec(evaluation_steps: u64) -> CompilerLimits {
        limits_of(evaluation_steps)
    }
}

/// The options that all ways to compile share.
#[derive(Debug, Clone, Copy, PartialEq, Eq, Structural)]
pub struct CompilerOptions {
    pub limits: CompilerLimits,
}

impl Default for CompilerOptions {
    fn default() -> (r: CompilerOptions)
        ensures
            r.limits == limits_of(1_000_000),
    {
        CompilerOptions { limits: CompilerLimits::default() }
    }
}

} // verus!
