//! Bias for choosing among candidate activities when balancing work.
use vstd::prelude::*;

verus! {

/// Whether small or large jobs are preferred when work is stolen or
/// distributed. On a single node the strategy is advisory only.
#[allow(clippy::upper_case_acronyms)]
#[derive(Clone, Copy, Debug, PartialEq, Eq, Structural)]
pub enum StealStrategy {
    SMALLEST,
    BIGGEST,
}

} // verus!
