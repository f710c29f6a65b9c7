use vstd::prelude::*;

verus! {

/// The one error surface of every store operation.
#[derive(Debug)]
pub enum StoreErrorType {
    /// Failure of the relational engine, of a pool, or of another subsystem.
    DatabaseError(String),
    /// A point lookup found no row.
    NotFound(String),
    /// A structured document could not be read or written.
    JsonError(String),
    /// A required environment variable was missing or unreadable.
    EnvVarError(String),
    /// A cursor or an offset was not a valid integer.
    IntError(String),
    /// A payload-carrying message with the same id is already stored.
    MessageExists(String),
}

impl StoreErrorType {
    /// The text carried by the error, whatever its kind.
    pub fn describe(&self) -> (r: String)
        ensures
            r@ == self.text()@,
    {
        match self {
            StoreErrorType::DatabaseError(s) => s.clone(),
            StoreErrorType::NotFound(s) => s.clone(),
            StoreErrorType::JsonError(s) => s.clone(),
            StoreErrorType::EnvVarError(s) => s.clone(),
            StoreErrorType::IntError(s) => s.clone(),
            StoreErrorType::MessageExists(s) => s.clone(),
        }
    }

    pub open spec fn text(&self) -> String {
        match self {
            StoreErrorType::DatabaseError(s) => *s,
            StoreErrorType::NotFound(s) => *s,
            StoreErrorType::JsonError(s) => *s,
            StoreErrorType::EnvVarError(s) => *s,
            StoreErrorType::IntError(s) => *s,
            StoreErrorType::MessageExists(s) => *s,
        }
    }
}

} // verus!
