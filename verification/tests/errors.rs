use photo_works::error::{Error, Table};

#[test]
fn io_and_schema_failures_speak_for_themselves() {
    assert_eq!("No such file", Error::Io { message: "No such file".to_string() }.to_string());
    assert_eq!(
        "no such table: catalog",
        Error::Schema { message: "no such table: catalog".to_string() }.to_string()
    );
}

#[test]
fn conflicts_name_the_row_and_the_key() {
    let catalog =
        Error::Conflict { table: Table::Catalog, sha256: "1".to_string(), path: "a/a".to_string() };
    assert_eq!(
        "Failed to insert (1, a/a): UNIQUE constraint failed: catalog.path",
        catalog.to_string()
    );
    let library =
        Error::Conflict { table: Table::Library, sha256: "1".to_string(), path: "a".to_string() };
    assert_eq!(
        "Failed to insert (1, a): UNIQUE constraint failed: library.hash",
        library.to_string()
    );
}

#[test]
fn copy_failures_name_both_ends() {
    let mismatch =
        Error::CopyVerification { from: "Cargo.toml".to_string(), to: "2023/5/18/x".to_string() };
    assert_eq!(
        "Cargo.toml sha256 does not match copied 2023/5/18/x. Aborting.",
        mismatch.to_string()
    );
    let exists = Error::DestinationExists { path: "Cargo.toml".to_string() };
    assert_eq!("Cargo.toml already exists.", exists.to_string());
}

#[test]
fn persist_mismatch_gives_both_counts() {
    assert_eq!(
        "Recorded 0 of 12 entries. Nothing was kept.",
        Error::PersistMismatch { inserted: 0, submitted: 12 }.to_string()
    );
}

#[test]
fn integrity_failures_name_the_table_and_the_path() {
    assert_eq!(
        "Failed catalog check for /p/a.jpg",
        Error::Integrity { table: Table::Catalog, path: "/p/a.jpg".to_string() }.to_string()
    );
    assert_eq!(
        "Failed library check for 2023/5/18/a.jpg",
        Error::Integrity { table: Table::Library, path: "2023/5/18/a.jpg".to_string() }.to_string()
    );
}

#[test]
fn plain_failures_have_their_texts() {
    assert_eq!("Invalid File", Error::InvalidPath.to_string());
    assert_eq!("Can't find an unused file name in the library.", Error::NoUsableName.to_string());
}

#[test]
fn failures_for_an_entry_lead_with_its_path() {
    let error = Error::ForEntry { path: "/p/a.jpg".to_string(), message: "no date".to_string() };
    assert_eq!("For /p/a.jpg: no date", error.to_string());
}

#[test]
fn collected_failures_stand_on_lines_of_their_own() {
    assert_eq!("", Error::Failures { messages: vec![] }.to_string());
    assert_eq!("one", Error::Failures { messages: vec!["one".to_string()] }.to_string());
    assert_eq!(
        "one\ntwo\nthree",
        Error::Failures {
            messages: vec!["one".to_string(), "two".to_string(), "three".to_string()]
        }
        .to_string()
    );
}
