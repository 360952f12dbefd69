//! Tracks the current known value (for example a version string) of a set of
//! user-registered applications. Each application carries a checker script
//! that reports its value; the registry keeps a snapshot value (the last value
//! the user accepted) and a latest value (the most recent observation), and
//! an application is up to date exactly when the two agree.

pub mod codec;
pub mod errors;
pub mod registry;
pub mod report;
pub mod runner;
pub mod text;

use vstd::prelude::*;

verus! {

/// The usage banner for the command surface built on this library.
pub fn usage() -> (r: &'static str)
    ensures
        r@ == usage_text(),
{
    "Ups: Check for app's updates

    - ups # Check for updates
    - ups insert [app] [check_update_script_path] # Insert an app into ups
    - ups snapshot [app] # Snapshot latest version
    - ups get [app] # Show the latest version of the specified app
    - ups show [app] # Show the script of the specified app"
}

/// What `usage` returns.
pub open spec fn usage_text() -> Seq<char> {
    "Ups: Check for app's updates

    - ups # Check for updates
    - ups insert [app] [check_update_script_path] # Insert an app into ups
    - ups snapshot [app] # Snapshot latest version
    - ups get [app] # Show the latest version of the specified app
    - ups show [app] # Show the script of the specified app"@
}

} // verus!
