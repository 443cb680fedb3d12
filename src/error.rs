use vstd::prelude::*;

verus! {

/// What can go wrong while managing spotlight panels.
#[derive(Debug, Clone, Copy, PartialEq, Eq, Structural)]
pub enum Error {
    /// The registry's lock could not be taken (a holder panicked).
    Lock,
    /// No panel is registered under the requested label.
    NotFound,
    /// The shortcut backend refused a registration or a query.
    ShortcutRegistration,
}

} // verus!
