//! Storage layer: the error type and the in-memory repository.

pub mod keyed;
pub mod mock;
pub mod rows;

use vstd::prelude::*;

use crate::text::{chars_of, extend_str, string_of};

pub use mock::MockRepository;

verus! {

/// Errors of the storage layer.
#[derive(Debug)]
pub enum StoreError {
    /// An SQLite error, by its message.
    Sqlite(String),
    /// A schema migration error, by its message.
    Migration(String),
    /// A record that does not exist.
    NotFound(String),
    /// Invalid data or request.
    Invalid(String),
}

/// The text shown for an error.
pub open spec fn store_error_text(e: StoreError) -> Seq<char> {
    match e {
        StoreError::Sqlite(m) => "error de sqlite: "@ + m@,
        StoreError::Migration(m) => "error de migración: "@ + m@,
        StoreError::NotFound(m) => "no encontrado: "@ + m@,
        StoreError::Invalid(m) => "dato inválido: "@ + m@,
    }
}

impl StoreError {
    /// The text shown for the error.
    pub fn message(&self) -> (r: String)
        ensures
            r@ == store_error_text(*self),
    {
        let (prefix, m) = match self {
            StoreError::Sqlite(m) => ("error de sqlite: ", m),
            StoreError::Migration(m) => ("error de migración: ", m),
            StoreError::NotFound(m) => ("no encontrado: ", m),
            StoreError::Invalid(m) => ("dato inválido: ", m),
        };
        let mut v = chars_of(prefix);
        extend_str(&mut v, m.as_str());
        string_of(&v)
    }
}

/// Result of a storage operation.
pub type Result<T> = std::result::Result<T, StoreError>;

} // verus!
