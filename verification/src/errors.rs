use vstd::prelude::*;

verus! {

/// The ways an operation on the registry or its persisted data can fail.
#[derive(Clone, Copy, Debug, PartialEq, Eq, Structural)]
pub enum UpsError {
    /// The script path handed to an insert could not be resolved to an
    /// existing file, so the insert was refused.
    ScriptPathUnresolved,
    /// A command named an application that is not registered.
    NotRegistered,
    /// The persisted data file is malformed and could not be loaded.
    ParseError,
}

impl UpsError {
    /// A short human-readable description of the error.
    pub fn message(&self) -> (r: &'static str)
        ensures
            *self == UpsError::ScriptPathUnresolved ==> r@ == "script path could not be resolved"@,
            *self == UpsError::NotRegistered ==> r@ == "app is not registered"@,
            *self == UpsError::ParseError ==> r@ == "error while parsing data file"@,
    {
        match self {
            UpsError::ScriptPathUnresolved => "script path could not be resolved",
            UpsError::NotRegistered => "app is not registered",
            UpsError::ParseError => "error while parsing data file",
        }
    }
}

} // verus!
