//! Configuration of the command-line client.

use vstd::prelude::*;

verus! {

/// What the command-line client is configured with.
#[derive(Debug, Default, Clone, PartialEq, Eq)]
pub struct Config {
    /// Talk to the service without transport security.
    pub dev_mode: bool,
    /// The namespace that commands act on when none is named.
    pub namespace: String,
    /// The address of the service.
    pub server: String,
}

} // verus!
