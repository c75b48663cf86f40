use vstd::prelude::*;

verus! {

/// Why the account snapshot could not be written.
#[derive(Clone, Copy, Debug, PartialEq, Eq, Structural)]
pub enum OutputError {
    FailedToWrite,
    FailedToFlush,
}

} // verus!
