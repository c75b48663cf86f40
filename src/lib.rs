//! A ledger of client accounts driven by deposit, withdrawal, dispute,
//! resolve and chargeback records.

use vstd::prelude::*;

pub mod amount;
pub mod handlers;
pub mod input;
pub mod laws;
pub mod models;
pub mod output;

verus! {

/// Any failure of a run: reading its input or writing its output.
#[derive(Clone, Copy, Debug, PartialEq, Eq, Structural)]
pub enum Error {
    Input(input::InputError),
    Output(output::OutputError),
}

} // verus!
