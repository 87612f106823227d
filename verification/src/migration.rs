//! The offline store migration's request and report.

use vstd::prelude::*;

use crate::store::{file_stem, file_stem_text, sibling_path, sibling_path_text};

verus! {

/// Which store to migrate.
#[derive(Debug)]
pub struct StoreMigrationRequest {
    database_path: String,
}

/// How many records the migrated or current store holds.
#[derive(Debug, Clone, Copy, PartialEq, Eq, Structural)]
pub struct StoreMigrationCompleted {
    pub record_count: u64,
}

/// Whether the store was already current or has been migrated.
#[derive(Debug, Clone, Copy, PartialEq, Eq, Structural)]
pub enum StoreMigrationOutput {
    Current(StoreMigrationCompleted),
    Migrated(StoreMigrationCompleted),
}

/// A migration of one store.
#[derive(Debug)]
pub struct StoreMigration {
    pub request: StoreMigrationRequest,
}

impl StoreMigrationRequest {
    pub closed spec fn spec_database_path(&self) -> Seq<char> {
        self.database_path@
    }

    pub fn new(database_path: String) -> (r: Self)
        ensures
            r.spec_database_path() == database_path@,
    {
        StoreMigrationRequest { database_path }
    }

    pub fn database_path(&self) -> (r: &String)
        ensures
            r@ == self.spec_database_path(),
    {
        &self.database_path
    }
}

impl StoreMigrationCompleted {
    pub fn record_count(&self) -> (r: u64)
        ensures
            r == self.record_count,
    {
        self.record_count
    }
}

impl StoreMigrationOutput {
    pub fn current(completed: StoreMigrationCompleted) -> (r: Self)
        ensures
            r == StoreMigrationOutput::Current(completed),
    {
        StoreMigrationOutput::Current(completed)
    }

    pub fn migrated(completed: StoreMigrationCompleted) -> (r: Self)
        ensures
            r == StoreMigrationOutput::Migrated(completed),
    {
        StoreMigrationOutput::Migrated(completed)
    }
}

impl StoreMigration {
    pub fn new(request: StoreMigrationRequest) -> (r: Self)
        ensures
            r.request == request,
    {
        StoreMigration { request }
    }
}

/// What a migration run does once it has looked at the database.
#[derive(Debug, Clone, Copy, PartialEq, Eq, Structural)]
pub enum MigrationOpening {
    /// Nothing to migrate: the store is reported current with its record
    /// count, after the rollback bundle this run staged (if it staged one)
    /// is removed.
    Current { record_count: u64, remove_new_rollback_bundle: bool },
    /// The database does not open as a current store: migrate it from
    /// schema 13.
    MigrateVersionThirteen,
}

/// The stem the migration's sibling files are named after: the database
/// file's stem, or `spirit` when it has none.
pub open spec fn migration_stem(database_path: Seq<char>) -> Seq<char> {
    match file_stem_text(database_path) {
        Some(stem) => stem,
        None => "spirit"@,
    }
}

impl StoreMigration {
    /// The decision at the start of a run. An absent database is current
    /// and empty. One that opens as a current store is current with its
    /// record count, and a rollback bundle the run has just staged is
    /// removed again. Anything else is migrated from schema 13.
    pub fn opening(database_exists: bool, current_record_count: Option<u64>, created_rollback: bool) -> (r:
        MigrationOpening)
        ensures
            r == if !database_exists {
                MigrationOpening::Current { record_count: 0, remove_new_rollback_bundle: false }
            } else {
                match current_record_count {
                    Some(n) => MigrationOpening::Current { record_count: n, remove_new_rollback_bundle: created_rollback },
                    None => MigrationOpening::MigrateVersionThirteen,
                }
            },
    {
        if !database_exists {
            return MigrationOpening::Current { record_count: 0, remove_new_rollback_bundle: false };
        }
        match current_record_count {
            Some(n) => MigrationOpening::Current { record_count: n, remove_new_rollback_bundle: created_rollback },
            None => MigrationOpening::MigrateVersionThirteen,
        }
    }

    /// Whether a failed schema-13 migration removes the rollback bundle:
    /// only when the frozen store could not be read and this run staged
    /// the bundle itself.
    pub fn removes_bundle_after_failure(frozen_store_unreadable: bool, created_rollback: bool) -> (r: bool)
        ensures
            r == (frozen_store_unreadable && created_rollback),
    {
        frozen_store_unreadable && created_rollback
    }

    fn sibling_named(database_path: &String, suffix: &str) -> (r: String)
        ensures
            r@ == sibling_path_text(database_path@, migration_stem(database_path@) + suffix@),
    {
        let mut name = match file_stem(database_path.as_str()) {
            Some(stem) => stem,
            None => "spirit".to_string(),
        };
        name.append(suffix);
        sibling_path(database_path.as_str(), name.as_str())
    }

    /// The archive database beside the live one: `<stem>.archive.sema`.
    pub fn archive_sibling_path(database_path: &String) -> (r: String)
        ensures
            r@ == sibling_path_text(database_path@, migration_stem(database_path@) + ".archive.sema"@),
    {
        Self::sibling_named(database_path, ".archive.sema")
    }

    /// The schema-6 guardian journal beside the live database:
    /// `<stem>.guardian.v6.sema`.
    pub fn guardian_v6_path(database_path: &String) -> (r: String)
        ensures
            r@ == sibling_path_text(database_path@, migration_stem(database_path@) + ".guardian.v6.sema"@),
    {
        Self::sibling_named(database_path, ".guardian.v6.sema")
    }

    /// The rollback bundle directory beside the live database:
    /// `<stem>.schema-13-rollback`.
    pub fn rollback_bundle_path(database_path: &String) -> (r: String)
        ensures
            r@ == sibling_path_text(database_path@, migration_stem(database_path@) + ".schema-13-rollback"@),
    {
        Self::sibling_named(database_path, ".schema-13-rollback")
    }
}

} // verus!
