use photo_works::command::check::{
    check_catalog_integrity, check_entry, check_library_integrity, duplicates_report,
    imported_report, Check, CheckTarget, CHECK,
};
use photo_works::database::catalog::{find_already_imported, find_duplicates};
use photo_works::database::catalog_entry::CatalogEntry;
use photo_works::database::library_entry::LibraryEntry;
use photo_works::database::test_utils::{
    new_database, new_database_containing_catalog_and_library_entries,
    new_database_containing_catalog_entries,
};
use photo_works::error::{Error, Table};

fn catalog_entry(sha256: &str, path: &str) -> CatalogEntry {
    CatalogEntry::new(sha256.to_string(), path.to_string())
}

fn digest_on_disk(path: &str) -> Result<String, Error> {
    if path.contains("gone") {
        Err(Error::Io { message: "No such file or directory".to_string() })
    } else if path.contains("changed") {
        Ok("FFFF".to_string())
    } else {
        Ok("AAAA".to_string())
    }
}

#[test]
fn name_is_check() {
    assert_eq!(CHECK, Check.name());
    assert_eq!("check", Check.name());
}

#[test]
fn check_targets_go_by_their_names() {
    assert_eq!(Some(CheckTarget::Library), CheckTarget::from_name("library"));
    assert_eq!(Some(CheckTarget::Catalog), CheckTarget::from_name("catalog"));
    assert_eq!(Some(CheckTarget::Duplicates), CheckTarget::from_name("duplicates"));
    assert_eq!(Some(CheckTarget::Imported), CheckTarget::from_name("imported"));
    assert_eq!(None, CheckTarget::from_name("everything"));
    assert_eq!(None, CheckTarget::from_name(""));
}

#[test]
fn check_entry_accepts_the_recorded_digest_only() {
    assert_eq!(Ok(()), check_entry(Table::Catalog, "AAAA", "/p/a", Ok("AAAA".to_string())));
    assert_eq!(
        Err(Error::Integrity { table: Table::Catalog, path: "/p/a".to_string() }),
        check_entry(Table::Catalog, "AAAA", "/p/a", Ok("AAAB".to_string()))
    );
    assert_eq!(
        Err(Error::Integrity { table: Table::Library, path: "2023/1/1/a".to_string() }),
        check_entry(Table::Library, "AAAA", "2023/1/1/a", Ok("aaaa".to_string()))
    );
    assert_eq!(
        Err(Error::ForEntry { path: "/p/a".to_string(), message: "unreadable".to_string() }),
        check_entry(
            Table::Library,
            "AAAA",
            "/p/a",
            Err(Error::Io { message: "unreadable".to_string() })
        )
    );
}

#[test]
fn catalog_integrity_counts_the_rows_when_all_are_sound() {
    let store = new_database_containing_catalog_entries(&vec![
        catalog_entry("AAAA", "/p/one"),
        catalog_entry("AAAA", "/p/two"),
        catalog_entry("AAAA", "/p/three"),
    ]);
    assert_eq!(Ok(3), check_catalog_integrity(&store, &digest_on_disk));
    assert_eq!(Ok(0), check_catalog_integrity(&new_database(), &digest_on_disk));
}

#[test]
fn catalog_integrity_checks_every_row_and_reports_all_failures() {
    let store = new_database_containing_catalog_entries(&vec![
        catalog_entry("AAAA", "/p/changed-1"),
        catalog_entry("AAAA", "/p/sound"),
        catalog_entry("AAAA", "/p/gone"),
        catalog_entry("AAAA", "/p/changed-2"),
    ]);
    let asked = std::cell::RefCell::new(vec![]);
    let digest = |path: &str| {
        asked.borrow_mut().push(path.to_string());
        digest_on_disk(path)
    };
    let error = check_catalog_integrity(&store, &digest).unwrap_err();
    assert_eq!(
        "Failed catalog check for /p/changed-1\nFor /p/gone: No such file or directory\nFailed catalog check for /p/changed-2",
        error.to_string()
    );
    assert_eq!(vec!["/p/changed-1", "/p/sound", "/p/gone", "/p/changed-2"], asked.into_inner());
}

#[test]
fn integrity_names_every_row_whose_file_cannot_be_read() {
    let store = new_database_containing_catalog_and_library_entries(
        &vec![catalog_entry("AAAA", "/p/gone-1"), catalog_entry("AAAA", "/p/gone-2")],
        &vec![LibraryEntry::new("AAAA".to_string(), "2023/1/1/gone.jpg".to_string())],
    );
    assert_eq!(
        Error::Failures {
            messages: vec![
                "For /p/gone-1: No such file or directory".to_string(),
                "For /p/gone-2: No such file or directory".to_string(),
            ]
        },
        check_catalog_integrity(&store, &digest_on_disk).unwrap_err()
    );
    assert_eq!(
        "For 2023/1/1/gone.jpg: No such file or directory",
        check_library_integrity(&store, &digest_on_disk).unwrap_err().to_string()
    );
}

#[test]
fn library_integrity_speaks_of_the_library() {
    let store = new_database_containing_catalog_and_library_entries(
        &vec![catalog_entry("AAAA", "/p/changed")],
        &vec![
            LibraryEntry::new("AAAA".to_string(), "2023/1/1/sound.jpg".to_string()),
            LibraryEntry::new("BBBB".to_string(), "2023/1/1/other.jpg".to_string()),
        ],
    );
    let error = check_library_integrity(&store, &digest_on_disk).unwrap_err();
    assert_eq!(
        Error::Failures { messages: vec!["Failed library check for 2023/1/1/other.jpg".to_string()] },
        error
    );
    let sound = new_database_containing_catalog_and_library_entries(
        &vec![],
        &vec![LibraryEntry::new("AAAA".to_string(), "2023/1/1/sound.jpg".to_string())],
    );
    assert_eq!(Ok(1), check_library_integrity(&sound, &digest_on_disk));
}

#[test]
fn duplicates_report_lists_each_digest_above_its_paths() {
    let store = new_database_containing_catalog_entries(&vec![
        catalog_entry("H1", "a/x.jpg"),
        catalog_entry("H2", "b/1.jpg"),
        catalog_entry("H1", "a/y.jpg"),
        catalog_entry("H2", "b/2.jpg"),
        catalog_entry("H3", "c/only.jpg"),
    ]);
    assert_eq!(
        "H1:\na/x.jpg\na/y.jpg\nH2:\nb/1.jpg\nb/2.jpg",
        duplicates_report(&find_duplicates(&store))
    );
    assert_eq!("", duplicates_report(&vec![]));
    assert_eq!(":\n", duplicates_report(&vec![vec![]]));
}

#[test]
fn imported_report_lists_digest_and_path_line_by_line() {
    let store = new_database_containing_catalog_and_library_entries(
        &vec![
            catalog_entry("H1", "a/x.jpg"),
            catalog_entry("H2", "b/1.jpg"),
            catalog_entry("H1", "c/x.jpg"),
        ],
        &vec![LibraryEntry::new("H1".to_string(), "2023/1/1/x.jpg".to_string())],
    );
    assert_eq!("H1: a/x.jpg\nH1: c/x.jpg", imported_report(&find_already_imported(&store)));
    assert_eq!("", imported_report(&vec![]));
}
