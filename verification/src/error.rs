//! Errors reported by the entity database.

use vstd::prelude::*;
use crate::id::{EntityId, FamilyId};

verus! {

/// The reasons an operation on the entity database can fail.
#[derive(Debug, Clone, Copy, PartialEq, Eq, Structural)]
pub enum DbError {
    EntityDoesntExist(EntityId),
    FailedToResolveTransfer,
    FailedToFindEntityFamily(EntityId),
    FailedToFindFamilyForSet(FamilyId),
    EntityBelongsToUnknownFamily,
    FailedToAcquireMapping,
    ColumnTypeDiscrepancy,
    ColumnAccessOutOfBounds,
    TableDoesntExistForFamily(FamilyId),
    ColumnDoesntExistInTable,
    EntityNotInTable(EntityId, FamilyId),
    UnableToAcquireTablesLock,
    FamilyDoesntExist(FamilyId),
    UnableToAcquireLock,
    MoveWithSameColumn,
}

impl DbError {
    /// The text of the error, without the ids it carries.
    pub fn message(&self) -> (r: &'static str)
        ensures
            r@ == db_error_text(*self),
    {
        match self {
            DbError::EntityDoesntExist(_) => "entity doesn't exist",
            DbError::FailedToResolveTransfer => "failed to transfer entity between families",
            DbError::FailedToFindEntityFamily(_) => "failed to find a family for entity",
            DbError::FailedToFindFamilyForSet(_) => "failed to find a family for the set of components",
            DbError::EntityBelongsToUnknownFamily => "requested family data is unknown or invalid",
            DbError::FailedToAcquireMapping => "failed to acquire requested mapping",
            DbError::ColumnTypeDiscrepancy => "column type mismatch",
            DbError::ColumnAccessOutOfBounds => "attempted to index a column out of bounds",
            DbError::TableDoesntExistForFamily(_) => "table doesn't exist for the given family id",
            DbError::ColumnDoesntExistInTable => "column doesn't exist in the given table",
            DbError::EntityNotInTable(_, _) => "entity does not exist in the family's data table",
            DbError::UnableToAcquireTablesLock => "unable to acquire master table lock",
            DbError::FamilyDoesntExist(_) => "family doesn't exist",
            DbError::UnableToAcquireLock => "failed to acquire poisoned lock",
            DbError::MoveWithSameColumn => "attempted to move a component to the column it was already in",
        }
    }
}

/// The text of each error, without the ids it carries.
pub open spec fn db_error_text(e: DbError) -> Seq<char> {
    match e {
        DbError::EntityDoesntExist(_) => "entity doesn't exist"@,
        DbError::FailedToResolveTransfer => "failed to transfer entity between families"@,
        DbError::FailedToFindEntityFamily(_) => "failed to find a family for entity"@,
        DbError::FailedToFindFamilyForSet(_) => "failed to find a family for the set of components"@,
        DbError::EntityBelongsToUnknownFamily => "requested family data is unknown or invalid"@,
        DbError::FailedToAcquireMapping => "failed to acquire requested mapping"@,
        DbError::ColumnTypeDiscrepancy => "column type mismatch"@,
        DbError::ColumnAccessOutOfBounds => "attempted to index a column out of bounds"@,
        DbError::TableDoesntExistForFamily(_) => "table doesn't exist for the given family id"@,
        DbError::ColumnDoesntExistInTable => "column doesn't exist in the given table"@,
        DbError::EntityNotInTable(_, _) => "entity does not exist in the family's data table"@,
        DbError::UnableToAcquireTablesLock => "unable to acquire master table lock"@,
        DbError::FamilyDoesntExist(_) => "family doesn't exist"@,
        DbError::UnableToAcquireLock => "failed to acquire poisoned lock"@,
        DbError::MoveWithSameColumn => "attempted to move a component to the column it was already in"@,
    }
}

} // verus!
