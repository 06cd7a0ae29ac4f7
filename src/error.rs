use vstd::prelude::*;

verus! {

/// Why a field of a clip could not be built.
#[derive(Debug, Clone, Copy, PartialEq, Eq, Structural)]
pub enum ClipError {
    InvalidContent,
    InvalidExpiration,
    InvalidPassword,
    InvalidTitle,
    InvalidShortCode,
}

/// Failures of the storage layer.
#[derive(Debug, Clone, Copy, PartialEq, Eq, Structural)]
pub enum DataError {
    /// No row matches the lookup key.
    NotFound,
    /// A row with the same unique key already exists.
    Duplicate,
    /// A counter would pass its largest value.
    Overflow,
}

/// The three error categories handed to the transport layer.
#[derive(Debug, Clone, Copy, PartialEq, Eq, Structural)]
pub enum ServiceError {
    NotFound,
    PermissionError,
    Data,
}

impl ServiceError {
    /// Maps a storage failure onto the categories callers see.
    pub fn from_data(e: DataError) -> (r: ServiceError)
        ensures
            r == (match e {
                DataError::NotFound => ServiceError::NotFound,
                _ => ServiceError::Data,
            }),
    {
        match e {
            DataError::NotFound => ServiceError::NotFound,
            _ => ServiceError::Data,
        }
    }
}

} // verus!
