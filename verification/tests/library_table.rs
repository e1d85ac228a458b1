use photo_works::database::catalog::persist_catalog_entries;
use photo_works::database::catalog_entry::CatalogEntry;
use photo_works::database::library::{
    foreach_entry, library_insert, library_insert_all, persist_library_entries,
};
use photo_works::database::library_entry::LibraryEntry;
use photo_works::database::test_utils::{
    catalog_contains, library_contains, new_database,
    new_database_containing_catalog_and_library_entries, new_database_containing_library_entries,
};
use photo_works::database::summarize;
use photo_works::error::Error;

fn library_entry(sha256: &str, path: &str) -> LibraryEntry {
    LibraryEntry { sha256: sha256.to_string(), path: path.to_string() }
}

fn some_library_entries() -> Vec<LibraryEntry> {
    vec![library_entry("1", "a"), library_entry("2", "b")]
}

#[test]
fn library_insert_all_returns_count_of_insertions() {
    let entries = some_library_entries();
    let mut store = new_database();

    assert_eq!(entries.len(), library_insert_all(&mut store, &entries).unwrap());
}

#[test]
fn library_insert_all_inserts_into_the_library_table() {
    let entries = some_library_entries();
    let mut store = new_database();
    let savepoint = store.savepoint();

    let count = library_insert_all(&mut store, &entries).unwrap();
    store.settle(savepoint, count, entries.len()).unwrap();

    assert!(library_contains(&store, &entries[0]));
    assert!(library_contains(&store, &entries[1]));
}

#[test]
fn library_insert_all_results_in_error_when_one_is_duplicate() {
    let entries = some_library_entries();
    let mut store = new_database();

    library_insert(&mut store, &entries[0]).unwrap();
    let savepoint = store.savepoint();
    assert!(library_insert_all(&mut store, &entries).is_err());
    store.rollback(savepoint);
    assert!(!library_contains(&store, &entries[1]));
}

#[test]
fn persist_library_entries_rollbacks_when_insert_fails() {
    let entries = some_library_entries();
    let mut store = new_database();
    library_insert(&mut store, &entries[0]).unwrap();

    let result = persist_library_entries(&mut store, &entries);

    assert!(!library_contains(&store, &library_entry("2", "b")));
    assert_eq!(
        result.err().unwrap().to_string(),
        "Failed to insert (1, a): UNIQUE constraint failed: library.hash".to_string()
    );
}

#[test]
fn library_foreach_entry_applies_the_function_to_each_entry() {
    let entries = some_library_entries();
    let store = new_database_containing_library_entries(&entries);
    let mut entry_hashes = vec![];
    let iterated_count = foreach_entry(&store, |e| {
        entry_hashes.push(e.sha256().to_owned());
        Ok(())
    })
    .unwrap();
    assert_eq!(entries.len(), iterated_count);
    assert_eq!(vec!("1", "2"), entry_hashes);
}

#[test]
fn library_foreach_entry_returns_error_when_parameter_function_does() {
    let store = new_database_containing_library_entries(&some_library_entries());
    assert_eq!(
        "invalid entry",
        foreach_entry(&store, |e| if e.sha256() == "1" {
            Ok(())
        } else {
            Err("invalid entry".to_string())
        })
        .err()
        .unwrap()
        .to_string()
    );
}

#[test]
fn inserting_two_library_entries_with_one_digest_fails_and_keeps_neither() {
    let mut store = new_database();
    let batch = vec![library_entry("H", "2023/1/1/a.jpg"), library_entry("H", "2023/1/2/b.jpg")];
    let error = persist_library_entries(&mut store, &batch).unwrap_err();
    assert_eq!(
        "Failed to insert (H, 2023/1/2/b.jpg): UNIQUE constraint failed: library.hash",
        error.to_string()
    );
    assert!(store.library_entries().is_empty());
    assert!(!library_contains(&store, &batch[0]));
    assert!(!library_contains(&store, &batch[1]));
}

#[test]
fn library_accepts_one_path_under_several_digests() {
    let mut store = new_database();
    let batch = vec![library_entry("1", "p"), library_entry("2", "p")];
    assert_eq!(2, persist_library_entries(&mut store, &batch).unwrap());
    assert_eq!(&batch, store.library_entries());
}

#[test]
fn library_batches_leave_the_catalog_alone() {
    let mut store = new_database();
    let catalog = vec![CatalogEntry::new("1".to_string(), "a/a".to_string())];
    persist_catalog_entries(&mut store, &catalog).unwrap();
    persist_library_entries(&mut store, &some_library_entries()).unwrap();
    assert!(persist_library_entries(&mut store, &some_library_entries()).is_err());
    assert_eq!(&catalog, store.catalog_entries());
    assert_eq!(&some_library_entries(), store.library_entries());
}

#[test]
fn settle_keeps_the_rows_when_the_counts_agree() {
    let mut store = new_database();
    let savepoint = store.savepoint();
    let entries = some_library_entries();
    let count = library_insert_all(&mut store, &entries).unwrap();
    assert_eq!(Ok(2), store.settle(savepoint, count, 2));
    assert_eq!(&entries, store.library_entries());
}

#[test]
fn settle_takes_every_row_of_the_batch_back_when_the_counts_differ() {
    let mut store = new_database();
    persist_library_entries(&mut store, &vec![library_entry("0", "kept")]).unwrap();
    let savepoint = store.savepoint();
    let entries = some_library_entries();
    library_insert_all(&mut store, &entries).unwrap();
    let error = store.settle(savepoint, 1, 2).unwrap_err();
    assert_eq!(Error::PersistMismatch { inserted: 1, submitted: 2 }, error);
    assert_eq!("Recorded 1 of 2 entries. Nothing was kept.", error.to_string());
    assert_eq!(&vec![library_entry("0", "kept")], store.library_entries());
}

#[test]
fn rollback_to_a_later_savepoint_changes_nothing() {
    let mut store = new_database();
    persist_library_entries(&mut store, &some_library_entries()).unwrap();
    let later = store.savepoint();
    store.rollback(later);
    assert_eq!(&some_library_entries(), store.library_entries());
    let mut other = new_database();
    let empty = other.savepoint();
    persist_library_entries(&mut other, &some_library_entries()).unwrap();
    let full = other.savepoint();
    other.rollback(empty);
    other.rollback(full);
    assert!(other.library_entries().is_empty());
}

#[test]
fn stores_are_made_with_what_can_stand_together() {
    let catalog = vec![
        CatalogEntry::new("1".to_string(), "a".to_string()),
        CatalogEntry::new("2".to_string(), "a".to_string()),
    ];
    let library = some_library_entries();
    let store = new_database_containing_catalog_and_library_entries(&catalog, &library);
    assert!(store.catalog_entries().is_empty());
    assert!(!catalog_contains(&store, &catalog[0]));
    assert!(library_contains(&store, &library[1]));
}

#[test]
fn summarize_counts_successes_and_joins_failures() {
    assert_eq!(Ok(0), summarize(&vec![]));
    assert_eq!(Ok(3), summarize(&vec![Ok(()), Ok(()), Ok(())]));
    let error =
        summarize(&vec![Err("first".to_string()), Ok(()), Err("second".to_string())]).unwrap_err();
    assert_eq!("first\nsecond", error.to_string());
    let single = summarize(&vec![Ok(()), Err("only".to_string())]).unwrap_err();
    assert_eq!("only", single.to_string());
}
