//! Stores with given contents, and questions about what a store holds.
use vstd::prelude::*;

use crate::database::catalog::persist_catalog_entries;
use crate::database::catalog_entry::CatalogEntry;
use crate::database::library::persist_library_entries;
use crate::database::library_entry::LibraryEntry;
use crate::database::model::{digests_free, paths_free, rows, Row};
use crate::database::Store;

verus! {

/// An empty store.
pub fn new_database() -> (r: Store)
    ensures
        r.wf(),
        r@.catalog == Seq::<Row>::empty(),
        r@.library == Seq::<Row>::empty(),
{
    Store::new()
}

/// A store whose catalog holds `entries`, or nothing where they cannot stand
/// together.
pub fn new_database_containing_catalog_entries(entries: &Vec<CatalogEntry>) -> (r: Store)
    ensures
        r.wf(),
        r@.library == Seq::<Row>::empty(),
        r@.catalog == if paths_free(Seq::<Row>::empty(), rows(entries@), entries.len() as int) {
            rows(entries@)
        } else {
            Seq::<Row>::empty()
        },
{
    let mut store = new_database();
    let _count = persist_catalog_entries(&mut store, entries);
    assert(Seq::<Row>::empty() + rows(entries@) =~= rows(entries@));
    store
}

/// A store whose library holds `entries`, which must not share a digest.
pub fn new_database_containing_library_entries(entries: &Vec<LibraryEntry>) -> (r: Store)
    requires
        digests_free(Seq::<Row>::empty(), rows(entries@), entries.len() as int),
    ensures
        r.wf(),
        r@.catalog == Seq::<Row>::empty(),
        r@.library == rows(entries@),
{
    let mut store = new_database();
    let _count = persist_library_entries(&mut store, entries);
    assert(Seq::<Row>::empty() + rows(entries@) =~= rows(entries@));
    store
}

/// A store that holds `catalog_entries` and `library_entries`, each table
/// empty where its entries cannot stand together.
pub fn new_database_containing_catalog_and_library_entries(
    catalog_entries: &Vec<CatalogEntry>,
    library_entries: &Vec<LibraryEntry>,
) -> (r: Store)
    ensures
        r.wf(),
        r@.catalog == if paths_free(
            Seq::<Row>::empty(),
            rows(catalog_entries@),
            catalog_entries.len() as int,
        ) {
            rows(catalog_entries@)
        } else {
            Seq::<Row>::empty()
        },
        r@.library == if digests_free(
            Seq::<Row>::empty(),
            rows(library_entries@),
            library_entries.len() as int,
        ) {
            rows(library_entries@)
        } else {
            Seq::<Row>::empty()
        },
{
    let mut store = new_database();
    let _count_catalog = persist_catalog_entries(&mut store, catalog_entries);
    let _count_library = persist_library_entries(&mut store, library_entries);
    assert(Seq::<Row>::empty() + rows(catalog_entries@) =~= rows(catalog_entries@));
    assert(Seq::<Row>::empty() + rows(library_entries@) =~= rows(library_entries@));
    store
}

/// Whether the catalog holds the row of `entry`.
pub fn catalog_contains(store: &Store, entry: &CatalogEntry) -> (r: bool)
    ensures
        r == store@.catalog.contains(entry@),
{
    crate::database::holds_row(store.catalog_entries(), entry)
}

/// Whether the library holds the row of `entry`.
pub fn library_contains(store: &Store, entry: &LibraryEntry) -> (r: bool)
    ensures
        r == store@.library.contains(entry@),
{
    crate::database::holds_row(store.library_entries(), entry)
}

} // verus!
