use vstd::prelude::*;

use crate::error::Error;

verus! {

/// What to do about the global close shortcut when a window is initialized:
/// nothing when none is configured; an error when the backend could not say
/// whether it is registered (`registered` is `None`); nothing when it is
/// registered already; else register it.
pub open spec fn close_shortcut_plan(shortcut: Option<String>, registered: Option<bool>) -> Result<
    Option<String>,
    Error,
> {
    match shortcut {
        None => Ok(None),
        Some(s) => match registered {
            None => Err(Error::ShortcutRegistration),
            Some(true) => Ok(None),
            Some(false) => Ok(Some(s)),
        },
    }
}

/// Decides whether the close shortcut `shortcut` is to be registered, given
/// what the shortcut backend says of it.
pub fn close_shortcut_to_register(shortcut: &Option<String>, registered: Option<bool>) -> (r: Result<
    Option<String>,
    Error,
>)
    ensures
        r == close_shortcut_plan(*shortcut, registered),
{
    match shortcut {
        None => Ok(None),
        Some(s) => match registered {
            None => Err(Error::ShortcutRegistration),
            Some(true) => Ok(None),
            Some(false) => Ok(Some(s.clone())),
        },
    }
}

/// Whether the backend holds the close shortcut after one initialization
/// that found it registered or not as `registered` says.
pub open spec fn registered_after(shortcut: Option<String>, registered: bool) -> bool {
    registered || close_shortcut_plan(shortcut, Some(registered)) is Ok && close_shortcut_plan(
        shortcut,
        Some(registered),
    )->Ok_0 is Some
}

/// Across two window initializations the close shortcut is registered at
/// most once: the second finds it registered and skips it without error,
/// and a configured shortcut is registered after the first.
pub proof fn lemma_close_shortcut_registered_once(shortcut: Option<String>, registered: bool)
    ensures
        shortcut is Some ==> registered_after(shortcut, registered),
        close_shortcut_plan(shortcut, Some(registered_after(shortcut, registered))) is Ok,
        registered_after(shortcut, registered) ==> close_shortcut_plan(
            shortcut,
            Some(registered_after(shortcut, registered)),
        ) == Ok::<Option<String>, Error>(None),
        registered ==> close_shortcut_plan(shortcut, Some(registered)) == Ok::<
            Option<String>,
            Error,
        >(None),
{
}

} // verus!
