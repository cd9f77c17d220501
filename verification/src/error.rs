//! The errors of the configuration and of the command-line tools.

use vstd::prelude::*;

verus! {

/// What went wrong.
pub enum DevError {
    /// The configuration or an outside tool cannot be used; the text says why.
    Config(String),
    /// Two services declare the same port.
    PortConflict { a: String, b: String, port: u16 },
    /// Services depend on one another in a circle; these cannot start.
    Cycle { services: Vec<String> },
}

} // verus!
