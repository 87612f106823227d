use spirit::migration::{MigrationOpening, StoreMigration};

#[test]
fn an_absent_database_is_current_and_empty() {
    assert_eq!(
        StoreMigration::opening(false, None, false),
        MigrationOpening::Current { record_count: 0, remove_new_rollback_bundle: false }
    );
}

#[test]
fn a_current_store_drops_the_bundle_this_run_staged() {
    assert_eq!(
        StoreMigration::opening(true, Some(4), true),
        MigrationOpening::Current { record_count: 4, remove_new_rollback_bundle: true }
    );
    assert_eq!(
        StoreMigration::opening(true, Some(4), false),
        MigrationOpening::Current { record_count: 4, remove_new_rollback_bundle: false }
    );
    assert_eq!(StoreMigration::opening(true, None, true), MigrationOpening::MigrateVersionThirteen);
}

#[test]
fn only_an_unreadable_frozen_store_removes_a_staged_bundle() {
    assert!(StoreMigration::removes_bundle_after_failure(true, true));
    assert!(!StoreMigration::removes_bundle_after_failure(true, false));
    assert!(!StoreMigration::removes_bundle_after_failure(false, true));
}

#[test]
fn the_migration_files_sit_beside_the_live_database() {
    let live = "/var/spirit/intent.sema".to_string();
    assert_eq!(StoreMigration::archive_sibling_path(&live), "/var/spirit/intent.archive.sema");
    assert_eq!(StoreMigration::guardian_v6_path(&live), "/var/spirit/intent.guardian.v6.sema");
    assert_eq!(StoreMigration::rollback_bundle_path(&live), "/var/spirit/intent.schema-13-rollback");
}
