//! What an activity step reports back to its executor.
use vstd::prelude::*;

verus! {

/// Returned by every lifecycle step of an activity.
///
/// `FINISH` means the step is done (after `process`, the activity is cleaned
/// up); `SUSPEND` means the activity waits for an event addressed to it.
#[allow(non_camel_case_types, clippy::upper_case_acronyms)]
#[derive(Clone, Copy, Debug, PartialEq, Eq, Structural)]
pub enum State {
    FINISH,
    SUSPEND,
}

} // verus!
