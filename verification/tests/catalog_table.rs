use photo_works::database::catalog::{
    catalog_insert, catalog_insert_all, find_already_imported, find_duplicates, foreach_entry,
    persist_catalog_entries, remove_catalog_entries, select_from_catalog,
};
use photo_works::database::catalog_entry::CatalogEntry;
use photo_works::database::library::persist_library_entries;
use photo_works::database::library_entry::LibraryEntry;
use photo_works::database::test_utils::{
    catalog_contains, new_database, new_database_containing_catalog_entries,
};
use photo_works::error::{Error, Table};

fn entry(sha256: &str, path: &str) -> CatalogEntry {
    CatalogEntry { sha256: sha256.to_string(), path: path.to_string() }
}

fn some_entries() -> Vec<CatalogEntry> {
    vec![entry("1", "a/a"), entry("2", "a/b")]
}

#[test]
fn catalog_insert_all_returns_count_of_insertions() {
    let entries = some_entries();
    let mut store = new_database();

    assert_eq!(entries.len(), catalog_insert_all(&mut store, &entries).unwrap());
}

#[test]
fn catalog_insert_all_inserts_into_the_catalog_table() {
    let entries = some_entries();

    let mut store = new_database();
    let savepoint = store.savepoint();

    let count = catalog_insert_all(&mut store, &entries).unwrap();
    store.settle(savepoint, count, entries.len()).unwrap();

    assert!(catalog_contains(&store, &entries[0]));
    assert!(catalog_contains(&store, &entries[1]));
}

#[test]
fn catalog_insert_all_results_in_error_when_one_is_duplicate() {
    let entries = some_entries();

    let mut store = new_database();
    catalog_insert(&mut store, &entries[0]).unwrap();
    let savepoint = store.savepoint();
    assert!(catalog_insert_all(&mut store, &entries).is_err());
    store.rollback(savepoint);
    assert!(!catalog_contains(&store, &entries[1]));
}

#[test]
fn persist_catalog_entries_rollbacks_on_error() {
    let entries = some_entries();
    let mut store = new_database();
    catalog_insert(&mut store, &entries[0]).unwrap();
    let result = persist_catalog_entries(&mut store, &entries);
    assert!(!catalog_contains(&store, &entry("2", "b")));
    assert_eq!(
        result.err().unwrap().to_string(),
        "Failed to insert (1, a/a): UNIQUE constraint failed: catalog.path".to_string()
    );
}

#[test]
fn select_from_catalog_returns_the_catalog_entries() {
    let entries = some_entries();
    let mut store = new_database();

    persist_catalog_entries(&mut store, &entries).unwrap();
    let results = select_from_catalog(&store, "a");
    assert_eq!(entries, results);
}

#[test]
fn select_from_catalog_does_not_return_entries_in_library() {
    let entries = some_entries();
    let mut store = new_database();

    let expected_results = vec![entry("2", "a/b")];
    persist_catalog_entries(&mut store, &entries).unwrap();
    persist_library_entries(
        &mut store,
        &vec![LibraryEntry::new("1".to_string(), "a/aa".to_string())],
    )
    .unwrap();
    let results = select_from_catalog(&store, "a");
    assert_eq!(expected_results, results);
}

#[test]
fn select_from_catalog_does_not_return_duplicate_hash_entries() {
    let entries = vec![entry("1", "a/a"), entry("1", "a/b")];
    let mut store = new_database();

    persist_catalog_entries(&mut store, &entries).unwrap();
    let results = select_from_catalog(&store, "a");
    assert_eq!(1, results.len());
}

#[test]
fn catalog_foreach_entry_applies_the_function_to_each_entry() {
    let entries = some_entries();

    let store = new_database_containing_catalog_entries(&entries);
    let mut entry_hashes = vec![];
    let iterated_count = foreach_entry(&store, |e| {
        entry_hashes.push(e.sha256().to_owned());
        Ok(())
    })
    .unwrap();
    assert_eq!(entries.len(), iterated_count);
    assert_eq!(vec!("1", "2"), entry_hashes);
}

#[test]
fn catalog_foreach_entry_returns_error_when_parameter_function_does() {
    let entries = some_entries();

    let store = new_database_containing_catalog_entries(&entries);
    assert_eq!(
        "invalid entry",
        foreach_entry(&store, |e| if e.sha256() == "1" {
            Ok(())
        } else {
            Err("invalid entry".to_string())
        })
        .err()
        .unwrap()
        .to_string()
    );
}

#[test]
fn find_already_imported_returns_all_catalog_entries_also_in_library() {
    let mut entries = some_entries();
    entries.push(CatalogEntry::new(entries[0].sha256.to_owned(), "c/cc".to_string()));

    let mut store = new_database_containing_catalog_entries(&entries);
    persist_library_entries(
        &mut store,
        &vec![LibraryEntry::new(entries[0].sha256.to_owned(), "a/aa".to_string())],
    )
    .unwrap();

    let result = find_already_imported(&store);
    assert_eq!(2, result.len());
    assert_eq!(entries[0], result[0]);
    assert_eq!(entries[2], result[1]);
}

#[test]
fn find_already_imported_does_not_return_catalog_entries_with_no_matching_library_entries() {
    let entries = some_entries();

    let mut store = new_database_containing_catalog_entries(&entries);
    persist_library_entries(
        &mut store,
        &vec![LibraryEntry::new("12".to_string(), "a/aa".to_string())],
    )
    .unwrap();

    assert!(find_already_imported(&store).is_empty());
}

#[test]
fn catalog_insert_reports_one_row_and_keeps_the_order() {
    let mut store = new_database();
    assert_eq!(1, catalog_insert(&mut store, &entry("9", "z")).unwrap());
    assert_eq!(1, catalog_insert(&mut store, &entry("9", "a")).unwrap());
    assert_eq!(&vec![entry("9", "z"), entry("9", "a")], store.catalog_entries());
}

#[test]
fn catalog_insert_refuses_a_path_that_is_taken() {
    let mut store = new_database();
    catalog_insert(&mut store, &entry("1", "a/a")).unwrap();
    let error = catalog_insert(&mut store, &entry("2", "a/a")).unwrap_err();
    assert_eq!(
        Error::Conflict {
            table: Table::Catalog,
            sha256: "2".to_string(),
            path: "a/a".to_string()
        },
        error
    );
    assert_eq!(&vec![entry("1", "a/a")], store.catalog_entries());
}

#[test]
fn persist_catalog_entries_refuses_a_path_twice_in_one_batch() {
    let mut store = new_database();
    let batch = vec![entry("1", "a"), entry("2", "b"), entry("3", "a"), entry("4", "b")];
    let error = persist_catalog_entries(&mut store, &batch).unwrap_err();
    assert_eq!(
        "Failed to insert (3, a): UNIQUE constraint failed: catalog.path",
        error.to_string()
    );
    assert!(store.catalog_entries().is_empty());
}

#[test]
fn persist_catalog_entries_leaves_earlier_batches_alone_when_it_fails() {
    let mut store = new_database();
    assert_eq!(2, persist_catalog_entries(&mut store, &some_entries()).unwrap());
    let batch = vec![entry("5", "c"), entry("6", "a/b"), entry("7", "d")];
    assert!(persist_catalog_entries(&mut store, &batch).is_err());
    assert_eq!(&some_entries(), store.catalog_entries());
    assert!(store.library_entries().is_empty());
}

#[test]
fn persist_catalog_entries_accepts_an_empty_batch() {
    let mut store = new_database();
    assert_eq!(0, persist_catalog_entries(&mut store, &vec![]).unwrap());
    assert!(store.catalog_entries().is_empty());
}

#[test]
fn catalog_accepts_one_digest_at_several_paths() {
    let mut store = new_database();
    let batch = vec![entry("1", "a"), entry("1", "b")];
    assert_eq!(2, persist_catalog_entries(&mut store, &batch).unwrap());
}

#[test]
fn select_from_catalog_goes_by_the_prefix_of_the_path() {
    let mut store = new_database();
    let batch =
        vec![entry("1", "a/x"), entry("2", "b/a/y"), entry("3", "A/z"), entry("4", "a%/w")];
    persist_catalog_entries(&mut store, &batch).unwrap();
    assert_eq!(vec![entry("1", "a/x"), entry("4", "a%/w")], select_from_catalog(&store, "a"));
    assert_eq!(vec![entry("4", "a%/w")], select_from_catalog(&store, "a%"));
    assert_eq!(batch, select_from_catalog(&store, ""));
    assert!(select_from_catalog(&store, "a/x/more").is_empty());
}

#[test]
fn select_from_catalog_gives_the_first_path_of_a_digest() {
    let mut store = new_database();
    let batch = vec![entry("1", "b/late"), entry("2", "a/one"), entry("1", "a/early")];
    persist_catalog_entries(&mut store, &batch).unwrap();
    assert_eq!(
        vec![entry("1", "b/late"), entry("2", "a/one")],
        select_from_catalog(&store, "")
    );
    assert_eq!(
        vec![entry("2", "a/one"), entry("1", "a/early")],
        select_from_catalog(&store, "a/")
    );
}

#[test]
fn find_duplicates_groups_the_paths_of_each_shared_digest() {
    let mut store = new_database();
    let batch = vec![
        entry("H1", "a/x.jpg"),
        entry("H2", "a/z.jpg"),
        entry("H1", "a/y.jpg"),
        entry("H3", "b/1"),
        entry("H3", "b/2"),
        entry("H1", "c/x.jpg"),
    ];
    persist_catalog_entries(&mut store, &batch).unwrap();
    assert_eq!(
        vec![
            vec![entry("H1", "a/x.jpg"), entry("H1", "a/y.jpg"), entry("H1", "c/x.jpg")],
            vec![entry("H3", "b/1"), entry("H3", "b/2")],
        ],
        find_duplicates(&store)
    );
}

#[test]
fn find_duplicates_is_empty_without_shared_digests() {
    let store = new_database_containing_catalog_entries(&some_entries());
    assert!(find_duplicates(&store).is_empty());
    assert!(find_duplicates(&new_database()).is_empty());
}

#[test]
fn remove_catalog_entries_deletes_the_given_rows_only() {
    let mut store = new_database();
    let batch = vec![entry("1", "a"), entry("2", "b"), entry("3", "c")];
    persist_catalog_entries(&mut store, &batch).unwrap();
    let removed = remove_catalog_entries(&mut store, &vec![entry("3", "c"), entry("1", "a")]);
    assert_eq!(2, removed);
    assert_eq!(&vec![entry("2", "b")], store.catalog_entries());
}

#[test]
fn remove_catalog_entries_passes_over_rows_that_are_not_there() {
    let mut store = new_database();
    let batch = vec![entry("1", "a"), entry("2", "b")];
    persist_catalog_entries(&mut store, &batch).unwrap();
    let gone = vec![entry("1", "a")];
    assert_eq!(1, remove_catalog_entries(&mut store, &gone));
    assert_eq!(0, remove_catalog_entries(&mut store, &gone));
    assert_eq!(0, remove_catalog_entries(&mut store, &vec![entry("9", "b")]));
    assert_eq!(&vec![entry("2", "b")], store.catalog_entries());
}

#[test]
fn foreach_entry_goes_on_after_a_failure_and_reports_them_all() {
    let batch = vec![entry("1", "a"), entry("2", "b"), entry("3", "c"), entry("4", "d")];
    let store = new_database_containing_catalog_entries(&batch);
    let mut seen = vec![];
    let result = foreach_entry(&store, |e| {
        seen.push(e.path().to_owned());
        if e.sha256() == "2" || e.sha256() == "4" {
            Err(format!("bad {}", e.path()))
        } else {
            Ok(())
        }
    });
    assert_eq!(vec!["a", "b", "c", "d"], seen);
    let error = result.unwrap_err();
    assert_eq!(
        Error::Failures { messages: vec!["bad b".to_string(), "bad d".to_string()] },
        error
    );
    assert_eq!("bad b\nbad d", error.to_string());
}

#[test]
fn foreach_entry_counts_nothing_in_an_empty_catalog() {
    let store = new_database();
    assert_eq!(0, foreach_entry(&store, |_e| Ok(())).unwrap());
}
