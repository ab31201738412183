use vstd::prelude::*;

verus! {

/// Why a snapshot could not be saved or loaded.
#[derive(Debug)]
pub enum StorageError {
    /// The storage area could not be reached.
    AccessError,
    /// The snapshot could not be turned into text.
    SerializeError(String),
    /// The stored text is not a valid snapshot.
    DeserializeError(String),
    /// The storage area refused to store the text.
    SetError(String),
    /// Nothing is stored under the key yet.
    NotFound(String),
    /// The database failed.
    DbError(String),
}

impl StorageError {
    /// Whether the error only says that nothing was stored yet, as on a first run.
    pub fn is_not_found(&self) -> (r: bool)
        ensures
            r == (self is NotFound),
    {
        match self {
            StorageError::NotFound(_) => true,
            _ => false,
        }
    }
}

/// The browser's local storage, as a place to keep snapshots.
pub struct WebStorage {}

impl WebStorage {
    /// A handle on the browser's local storage.
    pub fn new() -> (r: WebStorage) {
        WebStorage {}
    }
}

} // verus!
