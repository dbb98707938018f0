//! Failures of a load.
use vstd::prelude::*;

verus! {

/// Failures of a load: a schema conflict, a table that exists, a store
/// error, or a source without an expected column or sheet.
#[derive(Debug)]
pub enum LoadError {
    /// The synthetic index column is named like a column of the data.
    SchemaConflict(String),
    /// The table exists and the policy is `Fail`.
    TableExists(String),
    /// The store refused a statement; its message.
    StoreIO(String),
    /// A source lacks an expected column or sheet.
    SourceFormat(String),
}

impl Clone for LoadError {
    fn clone(&self) -> (r: Self)
        ensures
            r == *self,
    {
        match self {
            LoadError::SchemaConflict(s) => LoadError::SchemaConflict(s.clone()),
            LoadError::TableExists(s) => LoadError::TableExists(s.clone()),
            LoadError::StoreIO(s) => LoadError::StoreIO(s.clone()),
            LoadError::SourceFormat(s) => LoadError::SourceFormat(s.clone()),
        }
    }
}

} // verus!
