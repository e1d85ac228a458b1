//! The catalog table: what was found on disk, one row for each path.
use vstd::prelude::*;
use vstd::string::*;

use crate::database::catalog_entry::CatalogEntry;
use crate::database::model::{
    already_imported, digest_among, digest_is, distinct_paths, duplicate_groups,
    duplicate_groups_upto, group_rows, has_path, importable, not_among, path_taken, paths_free,
    rows, with_digest, without, Row,
};
use crate::database::{
    holds_digest, holds_digest_before, holds_path, holds_row, summary, visit_all, visited, Store,
};
use crate::error::{Error, Failure, Table};
use crate::text::starts_with;

verus! {

/// What a catalog insert reports when the path of `row` is taken.
pub open spec fn catalog_conflict(row: Row) -> Failure {
    Failure::Conflict { table: Table::Catalog, sha256: row.sha256, path: row.path }
}

/// Inserts one row. It is refused, and nothing changes, exactly when the
/// catalog already holds its path.
pub fn catalog_insert(store: &mut Store, entry: &CatalogEntry) -> (r: Result<usize, Error>)
    ensures
        match r {
            Ok(n) => n == 1 && !has_path(old(store)@.catalog, entry.path@) && final(store)@.catalog == old(store)@.catalog.push(entry@),
            Err(e) => has_path(old(store)@.catalog, entry.path@) && e@ == catalog_conflict(
                entry@,
            ) && final(store)@.catalog == old(store)@.catalog,
        },
        final(store)@.library == old(store)@.library,
        old(store).wf() ==> final(store).wf(),
{
    if holds_path(&store.catalog, &entry.path) {
        Err(
            Error::Conflict {
                table: Table::Catalog,
                sha256: entry.sha256.clone(),
                path: entry.path.clone(),
            },
        )
    } else {
        store.catalog.push(entry.clone());
        assert(store@.catalog =~= old(store)@.catalog.push(entry@));
        Ok(1)
    }
}

/// Inserts the entries one after another and stops at the first that is
/// refused. The rows before it stay until the caller takes them back.
pub fn catalog_insert_all(store: &mut Store, entries: &Vec<CatalogEntry>) -> (r: Result<
    usize,
    Error,
>)
    ensures
        match r {
            Ok(n) => n == entries.len() && paths_free(
                old(store)@.catalog,
                rows(entries@),
                entries.len() as int,
            ) && final(store)@.catalog == old(store)@.catalog + rows(entries@),
            Err(e) => exists|k: int|
                0 <= k < entries.len() && paths_free(old(store)@.catalog, rows(entries@), k)
                    && #[trigger] path_taken(old(store)@.catalog, rows(entries@), k) && e@
                    == catalog_conflict(entries[k]@) && final(store)@.catalog == old(store)@.catalog + rows(entries@).take(k),
        },
        final(store)@.library == old(store)@.library,
        old(store).wf() ==> final(store).wf(),
{
    let ghost before = store@.catalog;
    let ghost batch = rows(entries@);
    let mut count: usize = 0;
    let mut i: usize = 0;
    assert(before + batch.take(0) =~= before);
    while i < entries.len()
        invariant
            i <= entries.len(),
            count == i,
            batch == rows(entries@),
            before == old(store)@.catalog,
            store@.library == old(store)@.library,
            store@.catalog == before + batch.take(i as int),
            paths_free(before, batch, i as int),
            old(store).wf() ==> store.wf(),
        decreases entries.len() - i,
    {
        assert(batch[i as int] == entries[i as int]@);
        match catalog_insert(store, &entries[i]) {
            Ok(n) => {
                count += n;
            },
            Err(e) => {
                assert(path_taken(before, batch, i as int));
                return Err(e);
            },
        }
        assert(before + batch.take(i + 1) =~= (before + batch.take(i as int)).push(
            batch[i as int],
        ));
        i += 1;
    }
    assert(batch.take(entries.len() as int) =~= batch);
    Ok(count)
}

/// Whether a catalog that held `before` holds `after` once `batch` was handed
/// in as one batch that ended with `r`. The batch is accepted exactly when no
/// row of it finds its path taken, by the catalog or by an earlier row of the
/// batch: then all rows are added, and `r` is their number. Otherwise the
/// catalog is as it was, and `r` names the first row that found its path taken.
pub open spec fn catalog_batch(
    before: Seq<Row>,
    batch: Seq<Row>,
    after: Seq<Row>,
    r: Result<usize, Error>,
) -> bool {
    match r {
        Ok(n) => n == batch.len() && paths_free(before, batch, batch.len() as int) && after
            == before + batch,
        Err(e) => after == before && exists|k: int|
            0 <= k < batch.len() && paths_free(before, batch, k) && #[trigger] path_taken(
                before,
                batch,
                k,
            ) && e@ == catalog_conflict(batch[k]),
    }
}

/// Inserts all of `entries` or none of them, as `catalog_batch` says.
pub fn persist_catalog_entries(store: &mut Store, entries: &Vec<CatalogEntry>) -> (r: Result<
    usize,
    Error,
>)
    ensures
        catalog_batch(old(store)@.catalog, rows(entries@), final(store)@.catalog, r),
        final(store)@.library == old(store)@.library,
        old(store).wf() ==> final(store).wf(),
{
    let savepoint = store.savepoint();
    match catalog_insert_all(store, entries) {
        Ok(count) => store.settle(savepoint, count, entries.len()),
        Err(e) => {
            store.rollback(savepoint);
            assert(store@.catalog =~= old(store)@.catalog);
            assert(store@.library =~= old(store)@.library);
            assert(forall|k: int| 0 <= k < entries.len() ==> rows(entries@)[k] == entries[k]@);
            Err(e)
        },
    }
}

/// The entries that have the digest `sha256`, in their order.
fn entries_with_digest(entries: &Vec<CatalogEntry>, sha256: &String) -> (r: Vec<CatalogEntry>)
    ensures
        rows(r@) == with_digest(rows(entries@), sha256@),
{
    let ghost all = rows(entries@);
    let mut out: Vec<CatalogEntry> = Vec::new();
    let mut i: usize = 0;
    proof {
        reveal(Seq::filter);
        assert(all.take(0) =~= Seq::<Row>::empty());
        assert(rows(out@) =~= Seq::<Row>::empty());
    }
    while i < entries.len()
        invariant
            i <= entries.len(),
            all == rows(entries@),
            rows(out@) == with_digest(all.take(i as int), sha256@),
        decreases entries.len() - i,
    {
        proof {
            assert(all.take(i + 1) =~= all.take(i as int).push(all[i as int]));
            all.take(i as int).lemma_filter_push(all[i as int], digest_is(sha256@));
        }
        if entries[i].sha256 == *sha256 {
            let ghost earlier = rows(out@);
            out.push(entries[i].clone());
            assert(rows(out@) =~= earlier.push(all[i as int]));
        }
        i += 1;
    }
    assert(all.take(entries.len() as int) =~= all);
    out
}

/// The catalog entries that can be imported from under `path_prefix`: the path
/// begins with the prefix and the library does not hold the digest. Of several
/// such entries with one digest, only the one that was inserted first is given.
pub fn select_from_catalog(store: &Store, path_prefix: &str) -> (r: Vec<CatalogEntry>)
    ensures
        rows(r@) == importable(store@.catalog, store@.library, path_prefix@),
{
    let ghost catalog = store@.catalog;
    let ghost library = store@.library;
    let mut out: Vec<CatalogEntry> = Vec::new();
    let mut i: usize = 0;
    proof {
        assert(rows(out@) =~= Seq::<Row>::empty());
    }
    while i < store.catalog.len()
        invariant
            i <= store.catalog.len(),
            catalog == store@.catalog,
            library == store@.library,
            rows(out@) == importable(catalog.take(i as int), library, path_prefix@),
        decreases store.catalog.len() - i,
    {
        let entry = &store.catalog[i];
        proof {
            let upto = catalog.take(i + 1);
            assert(upto.drop_last() =~= catalog.take(i as int));
            assert(upto.last() == entry@);
        }
        if starts_with(entry.path.as_str(), path_prefix) && !holds_digest(
            &store.library,
            &entry.sha256,
        ) && !holds_digest(&out, &entry.sha256) {
            let ghost earlier = rows(out@);
            out.push(entry.clone());
            assert(rows(out@) =~= earlier.push(entry@));
        }
        i += 1;
    }
    assert(catalog.take(store.catalog.len() as int) =~= catalog);
    out
}

/// The catalog entries whose digest the library holds too, in catalog order.
pub fn find_already_imported(store: &Store) -> (r: Vec<CatalogEntry>)
    ensures
        rows(r@) == already_imported(store@.catalog, store@.library),
{
    let ghost catalog = store@.catalog;
    let ghost library = store@.library;
    let mut out: Vec<CatalogEntry> = Vec::new();
    let mut i: usize = 0;
    proof {
        reveal(Seq::filter);
        assert(catalog.take(0) =~= Seq::<Row>::empty());
        assert(rows(out@) =~= Seq::<Row>::empty());
    }
    while i < store.catalog.len()
        invariant
            i <= store.catalog.len(),
            catalog == store@.catalog,
            library == store@.library,
            rows(out@) == already_imported(catalog.take(i as int), library),
        decreases store.catalog.len() - i,
    {
        let entry = &store.catalog[i];
        proof {
            assert(catalog.take(i + 1) =~= catalog.take(i as int).push(entry@));
            catalog.take(i as int).lemma_filter_push(entry@, digest_among(library));
        }
        if holds_digest(&store.library, &entry.sha256) {
            let ghost earlier = rows(out@);
            out.push(entry.clone());
            assert(rows(out@) =~= earlier.push(entry@));
        }
        i += 1;
    }
    assert(catalog.take(store.catalog.len() as int) =~= catalog);
    out
}

/// The catalog entries grouped by digest, for every digest that more than one
/// path carries. A group holds all entries of its digest in catalog order, and
/// the groups follow the order of their first entries. They come as a list
/// and not as a map, so that the order in which they are listed and cleared
/// away is the same in every run; the digest of a group is that of its
/// entries.
pub fn find_duplicates(store: &Store) -> (r: Vec<Vec<CatalogEntry>>)
    ensures
        group_rows(r@) == duplicate_groups(store@.catalog),
{
    let ghost catalog = store@.catalog;
    let mut groups: Vec<Vec<CatalogEntry>> = Vec::new();
    let mut i: usize = 0;
    proof {
        assert(group_rows(groups@) =~= Seq::<Seq<Row>>::empty());
    }
    while i < store.catalog.len()
        invariant
            i <= store.catalog.len(),
            catalog == store@.catalog,
            group_rows(groups@) == duplicate_groups_upto(catalog, i as int),
        decreases store.catalog.len() - i,
    {
        let entry = &store.catalog[i];
        assert(catalog[i as int] == entry@);
        if !holds_digest_before(&store.catalog, i, &entry.sha256) {
            let group = entries_with_digest(&store.catalog, &entry.sha256);
            if group.len() > 1 {
                let ghost earlier = group_rows(groups@);
                let ghost found = rows(group@);
                groups.push(group);
                assert(group_rows(groups@) =~= earlier.push(found));
            }
        }
        i += 1;
    }
    groups
}

/// Deletes the rows of `entries` from the catalog and says how many rows
/// left. An entry whose row the catalog does not hold changes nothing.
pub fn remove_catalog_entries(store: &mut Store, entries: &Vec<CatalogEntry>) -> (r: usize)
    ensures
        final(store)@.catalog == without(old(store)@.catalog, rows(entries@)),
        final(store)@.library == old(store)@.library,
        r == old(store)@.catalog.len() - final(store)@.catalog.len(),
        old(store).wf() ==> final(store).wf(),
{
    let ghost catalog = store@.catalog;
    let ghost removed = rows(entries@);
    let mut kept: Vec<CatalogEntry> = Vec::new();
    let mut i: usize = 0;
    proof {
        reveal(Seq::filter);
        assert(catalog.take(0) =~= Seq::<Row>::empty());
        assert(rows(kept@) =~= Seq::<Row>::empty());
    }
    while i < store.catalog.len()
        invariant
            i <= store.catalog.len(),
            store@ == old(store)@,
            catalog == store@.catalog,
            removed == rows(entries@),
            rows(kept@) == without(catalog.take(i as int), removed),
            kept.len() <= i,
            forall|j: int|
                0 <= j < kept.len() ==> has_path(
                    catalog.take(i as int),
                    (#[trigger] rows(kept@)[j]).path,
                ),
            distinct_paths(catalog) ==> distinct_paths(rows(kept@)),
        decreases store.catalog.len() - i,
    {
        let entry = &store.catalog[i];
        proof {
            assert(catalog.take(i + 1) =~= catalog.take(i as int).push(entry@));
            catalog.take(i as int).lemma_filter_push(entry@, not_among(removed));
            assert forall|j: int| 0 <= j < kept.len() implies has_path(
                catalog.take(i + 1),
                (#[trigger] rows(kept@)[j]).path,
            ) by {
                let k = choose|k: int|
                    0 <= k < catalog.take(i as int).len() && (#[trigger] catalog.take(
                        i as int,
                    )[k]).path == rows(kept@)[j].path;
                assert(catalog.take(i + 1)[k].path == rows(kept@)[j].path);
            }
        }
        if !holds_row(entries, entry) {
            let ghost earlier = rows(kept@);
            kept.push(entry.clone());
            proof {
                assert(rows(kept@) =~= earlier.push(entry@));
                assert(catalog.take(i + 1)[i as int].path == entry@.path);
                if distinct_paths(catalog) {
                    assert forall|a: int, b: int| 0 <= a < b < rows(kept@).len() implies (
                    #[trigger] rows(kept@)[a]).path != (#[trigger] rows(kept@)[b]).path by {
                        if b == earlier.len() {
                            let k = choose|k: int|
                                0 <= k < catalog.take(i as int).len() && (#[trigger] catalog.take(
                                    i as int,
                                )[k]).path == earlier[a].path;
                            assert(catalog[k].path != catalog[i as int].path);
                        }
                    }
                }
            }
        }
        i += 1;
    }
    assert(catalog.take(store.catalog.len() as int) =~= catalog);
    let removed_rows = store.catalog.len() - kept.len();
    store.catalog = kept;
    removed_rows
}

/// Hands every catalog entry to `f`, in catalog order and whatever the earlier
/// visits returned, and sums up the visits as `summarize` does.
pub fn foreach_entry<F>(store: &Store, f: F) -> (r: Result<usize, Error>) where
    F: FnMut(CatalogEntry) -> Result<(), String>,

    requires
        forall|entry: CatalogEntry| call_requires(f, (entry,)),
    ensures
        exists|outcomes: Seq<Result<(), String>>|
            visited::<CatalogEntry, F>(f, store@.catalog, outcomes) && #[trigger] summary(
                outcomes,
                r,
            ),
{
    visit_all(store.catalog_entries(), f)
}

} // verus!
