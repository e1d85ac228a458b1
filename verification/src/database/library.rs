//! The library table: the files that were accepted, one row for each digest.
use vstd::prelude::*;
use vstd::string::*;

use crate::database::library_entry::LibraryEntry;
use crate::database::model::{digest_taken, digests_free, has_digest, rows, Row};
use crate::database::{holds_digest, summary, visit_all, visited, Store};
use crate::error::{Error, Failure, Table};

verus! {

/// What a library insert reports when the digest of `row` is taken.
pub open spec fn library_conflict(row: Row) -> Failure {
    Failure::Conflict { table: Table::Library, sha256: row.sha256, path: row.path }
}

/// Inserts one row. It is refused, and nothing changes, exactly when the
/// library already holds its digest.
pub fn library_insert(store: &mut Store, entry: &LibraryEntry) -> (r: Result<usize, Error>)
    ensures
        match r {
            Ok(n) => n == 1 && !has_digest(old(store)@.library, entry.sha256@) && final(store)@.library == old(store)@.library.push(entry@),
            Err(e) => has_digest(old(store)@.library, entry.sha256@) && e@ == library_conflict(
                entry@,
            ) && final(store)@.library == old(store)@.library,
        },
        final(store)@.catalog == old(store)@.catalog,
        old(store).wf() ==> final(store).wf(),
{
    if holds_digest(&store.library, &entry.sha256) {
        Err(
            Error::Conflict {
                table: Table::Library,
                sha256: entry.sha256.clone(),
                path: entry.path.clone(),
            },
        )
    } else {
        store.library.push(entry.clone());
        assert(store@.library =~= old(store)@.library.push(entry@));
        Ok(1)
    }
}

/// Inserts the entries one after another and stops at the first that is
/// refused. The rows before it stay until the caller takes them back.
pub fn library_insert_all(store: &mut Store, entries: &Vec<LibraryEntry>) -> (r: Result<
    usize,
    Error,
>)
    ensures
        match r {
            Ok(n) => n == entries.len() && digests_free(
                old(store)@.library,
                rows(entries@),
                entries.len() as int,
            ) && final(store)@.library == old(store)@.library + rows(entries@),
            Err(e) => exists|k: int|
                0 <= k < entries.len() && digests_free(old(store)@.library, rows(entries@), k)
                    && #[trigger] digest_taken(old(store)@.library, rows(entries@), k) && e@
                    == library_conflict(entries[k]@) && final(store)@.library == old(store)@.library + rows(entries@).take(k),
        },
        final(store)@.catalog == old(store)@.catalog,
        old(store).wf() ==> final(store).wf(),
{
    let ghost before = store@.library;
    let ghost batch = rows(entries@);
    let mut count: usize = 0;
    let mut i: usize = 0;
    assert(before + batch.take(0) =~= before);
    while i < entries.len()
        invariant
            i <= entries.len(),
            count == i,
            batch == rows(entries@),
            before == old(store)@.library,
            store@.catalog == old(store)@.catalog,
            store@.library == before + batch.take(i as int),
            digests_free(before, batch, i as int),
            old(store).wf() ==> store.wf(),
        decreases entries.len() - i,
    {
        assert(batch[i as int] == entries[i as int]@);
        match library_insert(store, &entries[i]) {
            Ok(n) => {
                count += n;
            },
            Err(e) => {
                assert(digest_taken(before, batch, i as int));
                return Err(e);
            },
        }
        assert(before + batch.take(i + 1) =~= (before + batch.take(i as int)).push(
            batch[i as int],
        ));
        i += 1;
    }
    assert(batch.take(entries.len() as int) =~= batch);
    Ok(count)
}

/// Whether a library that held `before` holds `after` once `batch` was handed
/// in as one batch that ended with `r`. The batch is accepted exactly when no
/// row of it finds its digest taken, by the library or by an earlier row of
/// the batch: then all rows are added, and `r` is their number. Otherwise the
/// library is as it was, and `r` names the first row that found its digest
/// taken.
pub open spec fn library_batch(
    before: Seq<Row>,
    batch: Seq<Row>,
    after: Seq<Row>,
    r: Result<usize, Error>,
) -> bool {
    match r {
        Ok(n) => n == batch.len() && digests_free(before, batch, batch.len() as int) && after
            == before + batch,
        Err(e) => after == before && exists|k: int|
            0 <= k < batch.len() && digests_free(before, batch, k) && #[trigger] digest_taken(
                before,
                batch,
                k,
            ) && e@ == library_conflict(batch[k]),
    }
}

/// Inserts all of `entries` or none of them, as `library_batch` says.
pub fn persist_library_entries(store: &mut Store, entries: &Vec<LibraryEntry>) -> (r: Result<
    usize,
    Error,
>)
    ensures
        library_batch(old(store)@.library, rows(entries@), final(store)@.library, r),
        final(store)@.catalog == old(store)@.catalog,
        old(store).wf() ==> final(store).wf(),
{
    let savepoint = store.savepoint();
    match library_insert_all(store, entries) {
        Ok(count) => store.settle(savepoint, count, entries.len()),
        Err(e) => {
            store.rollback(savepoint);
            assert(store@.catalog =~= old(store)@.catalog);
            assert(store@.library =~= old(store)@.library);
            assert(forall|k: int| 0 <= k < entries.len() ==> rows(entries@)[k] == entries[k]@);
            Err(e)
        },
    }
}

/// Hands every library entry to `f`, in library order and whatever the earlier
/// visits returned, and sums up the visits as `summarize` does.
pub fn foreach_entry<F>(store: &Store, f: F) -> (r: Result<usize, Error>) where
    F: FnMut(LibraryEntry) -> Result<(), String>,

    requires
        forall|entry: LibraryEntry| call_requires(f, (entry,)),
    ensures
        exists|outcomes: Seq<Result<(), String>>|
            visited::<LibraryEntry, F>(f, store@.library, outcomes) && #[trigger] summary(
                outcomes,
                r,
            ),
{
    visit_all(store.library_entries(), f)
}

} // verus!
