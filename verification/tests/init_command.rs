use photo_works::command::init::{database_path, repository_path, Init, INIT};

#[test]
fn name_is_init() {
    assert_eq!(INIT, Init.name());
}

#[test]
fn init_is_spelled_init() {
    assert_eq!("init", Init.name());
}

#[test]
fn repository_stands_under_the_given_directory() {
    assert_eq!("/home/me/.photo_works", repository_path("/home/me"));
    assert_eq!("/home/me/.photo_works", repository_path("/home/me/"));
    assert_eq!("pictures/.photo_works", repository_path("pictures"));
    assert_eq!("/.photo_works", repository_path("/"));
    assert_eq!(".photo_works", repository_path(""));
}

#[test]
fn database_stands_in_the_repository() {
    assert_eq!("/home/me/.photo_works/db.db3", database_path("/home/me"));
    assert_eq!(".photo_works/db.db3", database_path(""));
    assert_eq!("./.photo_works/db.db3", database_path("."));
}
