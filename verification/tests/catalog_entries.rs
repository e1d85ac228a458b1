use photo_works::database::catalog_entry::CatalogEntry;
use photo_works::database::common::sha256_digest;
use photo_works::error::Error;

fn digest_of_the_file(path: &str) -> Result<String, Error> {
    if path == "Cargo.toml" {
        Ok(sha256_digest(b"[package]\nname = \"photo_works\"\n"))
    } else {
        Err(Error::Io { message: "Is a directory (os error 21)".to_string() })
    }
}

fn under_the_working_directory(path: &str) -> Result<String, Error> {
    if path.starts_with('/') {
        Ok(path.to_string())
    } else {
        Ok(format!("/work/{}", path))
    }
}

#[test]
fn try_from_creates_catalog_entry_from_path() {
    let CatalogEntry { sha256, path } =
        CatalogEntry::try_from("Cargo.toml", &digest_of_the_file, &under_the_working_directory)
            .unwrap();
    assert_eq!(sha256, sha256_digest(b"[package]\nname = \"photo_works\"\n"));
    assert_eq!("/work/Cargo.toml", path);
}

#[test]
fn try_from_fails_to_create_catalog_entry_from_path() {
    assert!(CatalogEntry::try_from("/tmp", &digest_of_the_file, &under_the_working_directory)
        .is_err());
}

#[test]
fn try_from_asks_for_the_digest_before_the_path() {
    let steps = std::cell::RefCell::new(vec![]);
    let digest = |path: &str| {
        steps.borrow_mut().push(format!("digest {}", path));
        digest_of_the_file(path)
    };
    let canonical = |path: &str| {
        steps.borrow_mut().push(format!("resolve {}", path));
        under_the_working_directory(path)
    };
    assert!(CatalogEntry::try_from("Cargo.toml", &digest, &canonical).is_ok());
    assert_eq!(
        Err(Error::Io { message: "Is a directory (os error 21)".to_string() }),
        CatalogEntry::try_from("/tmp", &digest, &canonical)
    );
    assert_eq!(
        vec!["digest Cargo.toml", "resolve Cargo.toml", "digest /tmp"],
        steps.into_inner()
    );
}

#[test]
fn try_from_hands_on_the_failure_to_resolve_the_path() {
    let vanished = |_: &str| Err(Error::Io { message: "No such file or directory".to_string() });
    assert_eq!(
        Err(Error::Io { message: "No such file or directory".to_string() }),
        CatalogEntry::try_from("Cargo.toml", &digest_of_the_file, &vanished)
    );
}
