//! The error kinds a migration operation can surface.

use vstd::prelude::*;

verus! {

/// Everything that can end a migration operation early. `Io` and `Auth` are
/// raised by the unverified shell around the library (file access, remote
/// session setup); the other kinds are produced by the library itself.
#[derive(Debug, Clone)]
pub enum MigrateError {
    /// A malformed money or CSV field.
    Parse(String),
    /// A missing required column or cell.
    Schema(String),
    /// A remote query returned no rows where rows were expected.
    EmptyResult,
    /// Malformed backup JSON or a malformed remote document.
    Deserialization(String),
    /// A file or network failure, reported by the shell.
    Io(String),
    /// A credential or session setup failure, reported by the shell.
    Auth(String),
}

impl MigrateError {
    /// A printable diagnostic for this error.
    pub fn message(&self) -> (r: String)
        ensures
            match self {
                MigrateError::Parse(m) => r@ == m@,
                MigrateError::Schema(m) => r@ == m@,
                MigrateError::Deserialization(m) => r@ == m@,
                MigrateError::Io(m) => r@ == m@,
                MigrateError::Auth(m) => r@ == m@,
                MigrateError::EmptyResult => true,
            },
    {
        match self {
            MigrateError::Parse(m) => m.clone(),
            MigrateError::Schema(m) => m.clone(),
            MigrateError::EmptyResult => "remote query returned no rows".to_owned(),
            MigrateError::Deserialization(m) => m.clone(),
            MigrateError::Io(m) => m.clone(),
            MigrateError::Auth(m) => m.clone(),
        }
    }
}

} // verus!
