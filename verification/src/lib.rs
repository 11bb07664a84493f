//! A process-supervisor library: the state machines, template engine,
//! argument builder and control-loop decisions that keep a child
//! executable alive according to a restart policy.
//!
//! The library holds the verified core. Thread plumbing, process
//! spawning and file access live with the embedding program, which
//! drives the state machines defined here and performs the effects
//! they request.

pub mod binary;
pub mod config;
pub mod supervisor;
pub mod utils;
pub mod vars;
pub mod worker;

use vstd::prelude::*;

verus! {

/// Declares `core::fmt::Error` so it can stand in an error variant;
/// the value is opaque here.
#[verifier::external_type_specification]
#[verifier::external_body]
pub struct ExFmtError(core::fmt::Error);

/// Declares `std::io::Error` so it can stand in an error variant; the
/// value is opaque here.
#[verifier::external_type_specification]
#[verifier::external_body]
pub struct ExIoError(std::io::Error);

/// Error type shared by configuration loading and argument building.
#[derive(Debug)]
pub enum SoftError {
    /// A formatting failure reported by the standard library.
    StdErr(core::fmt::Error),
    /// An I/O failure reported by the standard library.
    IoErr(std::io::Error),
    /// A domain failure with a user-facing message.
    AppError(String),
}

impl From<std::io::Error> for SoftError {
    fn from(value: std::io::Error) -> (r: Self) {
        SoftError::IoErr(value)
    }
}

impl vstd::std_specs::convert::FromSpecImpl<std::io::Error> for SoftError {
    open spec fn obeys_from_spec() -> bool {
        true
    }

    open spec fn from_spec(value: std::io::Error) -> Self {
        SoftError::IoErr(value)
    }
}

} // verus!
