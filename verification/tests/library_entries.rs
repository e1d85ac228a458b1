use photo_works::database::catalog_entry::CatalogEntry;
use photo_works::database::library_entry::{
    build_file_name, candidate, capture_date, date_based_path, find_unused_library_path,
    original_date, unused_filename, Date, LibraryEntry, DATE_FORMAT, LAST_SUFFIX,
};
use photo_works::error::Error;

fn nothing_there(_path: &str) -> bool {
    false
}

fn picture() -> CatalogEntry {
    CatalogEntry::new("ABCD".to_string(), "resources/test/kami_neko.jpeg".to_string())
}

#[test]
fn try_from_creates_library_entry_from_path() {
    let catalog_entry = picture();
    let entry =
        LibraryEntry::try_from(&catalog_entry, Some("2023-05-18 16:33:50"), &nothing_there)
            .unwrap();
    assert_eq!(entry.sha256(), catalog_entry.sha256());
}

#[test]
fn try_from_fails_to_create_library_entry_from_non_exif_file() {
    let catalog_entry = CatalogEntry::new("ABCD".to_string(), "Cargo.toml".to_string());
    assert!(LibraryEntry::try_from(&catalog_entry, None, &nothing_there).is_err());
}

#[test]
fn date_based_path_uses_slash_separator() {
    let date = Date { year: 2023, month: 12, day: 2 };
    assert_eq!(
        [2023.to_string(), 12.to_string(), 2.to_string()].join("/"),
        date_based_path(date)
    );
}

#[test]
fn original_date_returns_the_original_naive_date_from_exif() {
    assert_eq!(
        Date { year: 2023, month: 5, day: 18 },
        original_date(Some("2023-05-18 16:33:50")).unwrap()
    );
}

#[test]
fn original_date_returns_error() {
    assert!(original_date(None).is_err());
}

#[test]
fn library_path_is_from_the_original_date_of_the_image() {
    let catalog_entry = picture();
    assert_eq!(
        [2023.to_string(), 5.to_string(), 18.to_string(), "kami_neko.jpeg".to_string()].join("/"),
        LibraryEntry::try_from(&catalog_entry, Some("2023-05-18 16:33:50"), &nothing_there)
            .unwrap()
            .path()
    );
}

#[test]
fn library_path_is_filename_is_changed_when_conflicting() {
    let catalog_entry = picture();
    let occupied_path =
        [2023.to_string(), 5.to_string(), 18.to_string(), "kami_neko.jpeg".to_string()].join("/");
    let occupied = |path: &str| path == occupied_path;

    let result = LibraryEntry::try_from(&catalog_entry, Some("2023-05-18 16:33:50"), &occupied);

    assert_eq!(
        [
            2023.to_string(),
            5.to_string(),
            18.to_string(),
            "kami_neko".to_string() + "_1." + "jpeg"
        ]
        .join("/"),
        result.unwrap().path()
    );
}

#[test]
fn library_entry_holds_what_it_was_made_with() {
    let entry = LibraryEntry::new("F00D".to_string(), "2023/5/18/a.jpg".to_string());
    assert_eq!("F00D", entry.sha256());
    assert_eq!("2023/5/18/a.jpg", entry.path());
    assert_eq!(entry, entry.clone());
    assert!(entry.same_row(&LibraryEntry::new("F00D".to_string(), "2023/5/18/a.jpg".to_string())));
    assert!(!entry.same_row(&LibraryEntry::new("F00D".to_string(), "2023/5/18/b.jpg".to_string())));
    assert!(!entry.same_row(&LibraryEntry::new("F00E".to_string(), "2023/5/18/a.jpg".to_string())));
}

#[test]
fn catalog_entry_holds_what_it_was_made_with() {
    let entry = CatalogEntry::new("F00D".to_string(), "/p/a.jpg".to_string());
    assert_eq!("F00D", entry.sha256());
    assert_eq!("/p/a.jpg", entry.path());
    assert_eq!(entry, entry.clone());
    assert!(entry.same_row(&CatalogEntry::new("F00D".to_string(), "/p/a.jpg".to_string())));
    assert!(!entry.same_row(&CatalogEntry::new("F00D".to_string(), "/p/b.jpg".to_string())));
    assert!(!entry.same_row(&CatalogEntry::new("F00E".to_string(), "/p/a.jpg".to_string())));
}

#[test]
fn original_date_reads_the_day_and_leaves_the_time() {
    assert_eq!(
        Ok(Date { year: 1999, month: 12, day: 31 }),
        original_date(Some("1999-12-31 23:59:59"))
    );
    assert_eq!(
        Ok(Date { year: 2024, month: 2, day: 29 }),
        original_date(Some("2024-02-29 00:00:00"))
    );
}

#[test]
fn original_date_tells_a_missing_date_from_an_unreadable_one() {
    assert_eq!(Err(Error::DateMissing), original_date(None));
    assert_eq!(Err(Error::DateUnparseable), original_date(Some("")));
    assert_eq!(Err(Error::DateUnparseable), original_date(Some("yesterday")));
    assert_eq!(Err(Error::DateUnparseable), original_date(Some("2023-02-30 10:00:00")));
    assert_eq!(Err(Error::DateUnparseable), original_date(Some("2023-05-18")));
    assert_eq!("DateTimeOriginal tag not found", Error::DateMissing.to_string());
    assert_eq!("Failed to parse DateTimeOriginal", Error::DateUnparseable.to_string());
}

#[test]
fn capture_date_takes_what_was_read() {
    let read = chrono::NaiveDate::parse_from_str("2023-05-18 16:33:50", DATE_FORMAT);
    assert!(read.is_ok());
    assert_eq!(Ok(Date { year: 7, month: 8, day: 9 }), capture_date(Ok((7, 8, 9))));
    let unread = chrono::NaiveDate::parse_from_str("nothing", DATE_FORMAT);
    assert_eq!(Err(Error::DateUnparseable), capture_date(unread.map(|_| (1, 1, 1))));
}

#[test]
fn date_based_path_does_not_pad() {
    assert_eq!("2023/5/18", date_based_path(Date { year: 2023, month: 5, day: 18 }));
    assert_eq!("5/1/2", date_based_path(Date { year: 5, month: 1, day: 2 }));
    assert_eq!("0/10/20", date_based_path(Date { year: 0, month: 10, day: 20 }));
    assert_eq!("-44/3/15", date_based_path(Date { year: -44, month: 3, day: 15 }));
}

#[test]
fn build_file_name_puts_the_suffix_behind_the_stem() {
    assert_eq!("kami_neko_1", build_file_name("kami_neko", "_1"));
    assert_eq!("_7", build_file_name("", "_7"));
    assert_eq!("a", build_file_name("a", ""));
}

#[test]
fn candidates_are_the_plain_name_and_then_the_numbered_ones() {
    assert_eq!("2023/5/18/a.jpg", candidate("2023/5/18", "a", "jpg", 0));
    assert_eq!("2023/5/18/a_1.jpg", candidate("2023/5/18", "a", "jpg", 1));
    assert_eq!("2023/5/18/a_10.jpg", candidate("2023/5/18", "a", "jpg", 10));
    assert_eq!("2023/5/18/a_2147483647.jpg", candidate("2023/5/18", "a", "jpg", LAST_SUFFIX));
    assert_eq!("a.b_3.jpg", candidate("", "a.b", "jpg", 3));
    assert_eq!("d/a_1.", candidate("d/", "a", "", 1));
}

#[test]
fn unused_filename_takes_the_first_name_that_is_free() {
    let taken = ["d/a.jpg", "d/a_1.jpg", "d/a_2.jpg", "d/a_4.jpg"];
    let occupied = |path: &str| taken.contains(&path);
    assert_eq!(Ok("d/a_3.jpg".to_string()), unused_filename("d", "a", "jpg", &occupied));
    assert_eq!(Ok("d/b.jpg".to_string()), unused_filename("d", "b", "jpg", &occupied));
    assert_eq!(Ok("e/a.jpg".to_string()), unused_filename("e", "a", "jpg", &occupied));
}

#[test]
fn unused_filename_asks_about_each_candidate_once_and_in_order() {
    let asked = std::cell::RefCell::new(vec![]);
    let occupied = |path: &str| {
        asked.borrow_mut().push(path.to_string());
        asked.borrow().len() < 3
    };
    assert_eq!(Ok("d/a_2.jpg".to_string()), unused_filename("d", "a", "jpg", &occupied));
    assert_eq!(vec!["d/a.jpg", "d/a_1.jpg", "d/a_2.jpg"], asked.into_inner());
}

#[test]
fn library_path_needs_a_stem_and_an_extension() {
    let date = Date { year: 2023, month: 5, day: 18 };
    assert_eq!(
        Ok("2023/5/18/x.jpg".to_string()),
        find_unused_library_path("/p/x.jpg", date, &nothing_there)
    );
    assert_eq!(
        Ok("2023/5/18/x.tar.gz".to_string()),
        find_unused_library_path("/p/x.tar.gz", date, &nothing_there)
    );
    assert_eq!(Err(Error::MissingFileStem), find_unused_library_path("/", date, &nothing_there));
    assert_eq!(Err(Error::MissingFileStem), find_unused_library_path("a/..", date, &nothing_there));
    assert_eq!(Err(Error::MissingExtension), find_unused_library_path("/p/x", date, &nothing_there));
    assert_eq!(
        Err(Error::MissingExtension),
        find_unused_library_path("/p/.hidden", date, &nothing_there)
    );
    assert_eq!("Expected a file stem", Error::MissingFileStem.to_string());
    assert_eq!("Expected a file extension", Error::MissingExtension.to_string());
}

#[test]
fn try_from_names_the_picture_when_the_date_fails() {
    let catalog_entry = picture();
    let missing = LibraryEntry::try_from(&catalog_entry, None, &nothing_there).unwrap_err();
    assert_eq!(
        "For resources/test/kami_neko.jpeg: DateTimeOriginal tag not found",
        missing.to_string()
    );
    let unreadable =
        LibraryEntry::try_from(&catalog_entry, Some("soon"), &nothing_there).unwrap_err();
    assert_eq!(
        Error::ForEntry {
            path: "resources/test/kami_neko.jpeg".to_string(),
            message: "Failed to parse DateTimeOriginal".to_string()
        },
        unreadable
    );
}

#[test]
fn no_usable_name_has_its_text() {
    assert_eq!("Can't find an unused file name in the library.", Error::NoUsableName.to_string());
}
