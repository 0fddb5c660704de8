//! What can go wrong in a debugging session.

use vstd::prelude::*;

verus! {

/// The failures a session reports. Only a failed symbol load ends the
/// program; after any of the others the session goes on taking commands.
#[derive(Clone, Copy, Debug, PartialEq, Eq, Structural)]
pub enum Error {
    /// The target could not be launched, or its first stop was not the trap
    /// that follows the loading of the program image.
    StartupFailed,
    /// A tracing call on a tracee presumed alive was refused. The tracee is
    /// no longer usable.
    TraceOperationFailed,
    /// A breakpoint location matched neither a literal address, nor a source
    /// line with code, nor a function.
    UnresolvedLocation,
    /// The debugging information of the target could not be read.
    SymbolLoadFailed,
}

} // verus!
