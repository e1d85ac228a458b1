//! Import: catalog files that the library does not hold are copied to their
//! place in it, checked, and recorded together.
use vstd::prelude::*;
use vstd::string::*;

use crate::database::catalog::select_from_catalog;
use crate::database::catalog_entry::CatalogEntry;
use crate::database::library::persist_library_entries;
use crate::database::library_entry::{planned, probe, text_of, LibraryEntry};
use crate::database::model::{
    digest_taken, distinct_digests, has_digest, importable, lemma_importable, rows, Row,
};
use crate::database::Store;
use crate::error::{Error, Failure};

verus! {

pub const IMPORT: &'static str = "import";

/// The command that brings catalogued pictures into the library.
pub struct Import;

impl Import {
    pub fn name(&self) -> (r: &'static str)
        ensures
            r@ == IMPORT@,
    {
        IMPORT
    }
}

/// What becomes of `library_entry` once the copy of `from` at its path has the
/// digest `copy_sha256`: it stands if that is its own digest, and fails as a
/// `CopyVerification` if it is not.
pub fn verify_copy(from: &str, library_entry: LibraryEntry, copy_sha256: &str) -> (r: Result<
    LibraryEntry,
    Error,
>)
    ensures
        copy_sha256@ == library_entry.sha256@ ==> r == Ok::<LibraryEntry, Error>(library_entry),
        copy_sha256@ != library_entry.sha256@ ==> r is Err && r->Err_0@
            == (Failure::CopyVerification { from: from@, to: library_entry.path@ }),
{
    if crate::text::equal(library_entry.sha256.as_str(), copy_sha256) {
        Ok(library_entry)
    } else {
        Err(Error::CopyVerification { from: String::from_str(from), to: library_entry.path })
    }
}

/// Whether `copy` can return `outcome` when it is asked to copy `from` to `to`.
pub open spec fn copying<C: Fn(&str, &str) -> Result<String, Error>>(
    copy: C,
    from: Seq<char>,
    to: Seq<char>,
    outcome: Result<String, Error>,
) -> bool {
    exists|source: &str, destination: &str|
        source@ == from && destination@ == to && #[trigger] call_ensures(
            copy,
            (source, destination),
            outcome,
        )
}

/// Whether `r` is the outcome of copying `from` to the path of `entry` and
/// checking the copy: the failure of the copy, a `CopyVerification` where the
/// copy has another digest than the entry, and the entry otherwise.
pub open spec fn copied<C: Fn(&str, &str) -> Result<String, Error>>(
    copy: C,
    from: Seq<char>,
    entry: LibraryEntry,
    r: Result<LibraryEntry, Error>,
) -> bool {
    exists|outcome: Result<String, Error>| #[trigger]
        copying(copy, from, entry.path@, outcome) && match outcome {
            Err(e) => r == Err::<LibraryEntry, Error>(e),
            Ok(copy_sha256) => if copy_sha256@ == entry.sha256@ {
                r == Ok::<LibraryEntry, Error>(entry)
            } else {
                r is Err && r->Err_0@ == (Failure::CopyVerification {
                    from: from,
                    to: entry.path@,
                })
            },
        }
}

/// Copies `from` to the path of `library_entry` with `copy`, which makes the
/// directories on the way and returns the digest of what arrived, and accepts
/// the entry only if that digest is its own.
pub fn copy_catalog_entry<C>(from: &str, library_entry: LibraryEntry, copy: &C) -> (r: Result<
    LibraryEntry,
    Error,
>) where C: Fn(&str, &str) -> Result<String, Error>
    requires
        forall|source: &str, destination: &str| call_requires(*copy, (source, destination)),
    ensures
        copied(*copy, from@, library_entry, r),
{
    let outcome = copy(from, library_entry.path.as_str());
    assert(copying(*copy, from@, library_entry.path@, outcome));
    match outcome {
        Ok(copy_sha256) => verify_copy(from, library_entry, copy_sha256.as_str()),
        Err(e) => Err(e),
    }
}

/// Whether `announce` was told that `from` is about to go to `to`.
pub open spec fn announced<A: Fn(&str, &str)>(announce: A, from: Seq<char>, to: Seq<char>) -> bool {
    exists|source: &str, destination: &str, done: ()|
        source@ == from && destination@ == to && #[trigger] call_ensures(
            announce,
            (source, destination),
            done,
        )
}

/// Whether `r` is the outcome of copying `from` to the path of `entry` unless
/// something stands there already, after `announce` was told of it.
pub open spec fn try_copied<
    A: Fn(&str, &str),
    O: Fn(&str) -> bool,
    C: Fn(&str, &str) -> Result<String, Error>,
>(
    announce: A,
    occupied: O,
    copy: C,
    from: Seq<char>,
    entry: LibraryEntry,
    r: Result<LibraryEntry, Error>,
) -> bool {
    &&& announced(announce, from, entry.path@)
    &&& exists|taken: bool| #[trigger]
        probe(occupied, entry.path@, taken) && if taken {
            r is Err && r->Err_0@ == (Failure::DestinationExists { path: entry.path@ })
        } else {
            copied(copy, from, entry, r)
        }
}

/// Copies the file at `path` to the path of `library_entry`, unless `occupied`
/// says that something stands there: then nothing is copied. Before that,
/// `announce` is told which file is about to go where.
pub fn try_copy_catalog_entry<A, O, C>(
    path: &str,
    library_entry: LibraryEntry,
    announce: &A,
    occupied: &O,
    copy: &C,
) -> (r: Result<LibraryEntry, Error>) where
    A: Fn(&str, &str),
    O: Fn(&str) -> bool,
    C: Fn(&str, &str) -> Result<String, Error>,

    requires
        forall|from: &str, to: &str| call_requires(*announce, (from, to)),
        forall|p: &str| call_requires(*occupied, (p,)),
        forall|source: &str, destination: &str| call_requires(*copy, (source, destination)),
    ensures
        try_copied(*announce, *occupied, *copy, path@, library_entry, r),
{
    let to = library_entry.path.as_str();
    let told = announce(path, to);
    assert(announced(*announce, path@, library_entry.path@)) by {
        assert(call_ensures(*announce, (path, to), told));
    }
    let exists = occupied(library_entry.path.as_str());
    assert(probe(*occupied, library_entry.path@, exists));
    if exists {
        Err(Error::DestinationExists { path: library_entry.path })
    } else {
        copy_catalog_entry(path, library_entry, copy)
    }
}

/// The characters of a text that may be missing.
pub open spec fn field_of(text: Option<String>) -> Option<Seq<char>> {
    match text {
        Some(text) => Some(text@),
        None => None,
    }
}

/// Whether `date_text` can return `outcome` when it is asked for the date text
/// of the picture at `path`.
pub open spec fn reading<D: Fn(&str) -> Result<Option<String>, Error>>(
    date_text: D,
    path: Seq<char>,
    outcome: Result<Option<String>, Error>,
) -> bool {
    exists|p: &str| p@ == path && #[trigger] call_ensures(date_text, (p,), outcome)
}

/// Whether `r` is the outcome of bringing the picture of the catalog row `row`
/// into the library: the date text is read, the library entry is planned, and
/// the file is copied and checked. The first of these that fails is the
/// outcome.
pub open spec fn entry_imported<
    D: Fn(&str) -> Result<Option<String>, Error>,
    A: Fn(&str, &str),
    O: Fn(&str) -> bool,
    C: Fn(&str, &str) -> Result<String, Error>,
>(date_text: D, announce: A, occupied: O, copy: C, row: Row, r: Result<LibraryEntry, Error>) -> bool {
    exists|read: Result<Option<String>, Error>| #[trigger]
        reading(date_text, row.path, read) && match read {
            Err(e) => r == Err::<LibraryEntry, Error>(e),
            Ok(text) => exists|plan: Result<LibraryEntry, Error>| #[trigger]
                planned(occupied, row, field_of(text), plan) && match plan {
                    Err(e) => r == Err::<LibraryEntry, Error>(e),
                    Ok(entry) => try_copied(announce, occupied, copy, row.path, entry, r),
                },
        }
}

/// Brings the picture of one catalog entry into the library: `date_text` reads
/// the text of its original date and time, `occupied` says whether something
/// stands at a path, `announce` is told of the copy that is about to be made,
/// and `copy` copies a file and returns the digest of what arrived.
pub fn import_entry<D, A, O, C>(
    catalog_entry: &CatalogEntry,
    date_text: &D,
    announce: &A,
    occupied: &O,
    copy: &C,
) -> (r: Result<LibraryEntry, Error>) where
    D: Fn(&str) -> Result<Option<String>, Error>,
    A: Fn(&str, &str),
    O: Fn(&str) -> bool,
    C: Fn(&str, &str) -> Result<String, Error>,

    requires
        forall|p: &str| call_requires(*date_text, (p,)),
        forall|from: &str, to: &str| call_requires(*announce, (from, to)),
        forall|p: &str| call_requires(*occupied, (p,)),
        forall|source: &str, destination: &str| call_requires(*copy, (source, destination)),
    ensures
        entry_imported(*date_text, *announce, *occupied, *copy, catalog_entry@, r),
{
    let read = date_text(catalog_entry.path.as_str());
    assert(reading(*date_text, catalog_entry@.path, read));
    match read {
        Err(e) => Err(e),
        Ok(text) => {
            let field: Option<&str> = match &text {
                Some(text) => Some(text.as_str()),
                None => None,
            };
            assert(text_of(field) == field_of(text));
            let plan = LibraryEntry::try_from(catalog_entry, field, occupied);
            assert(planned(*occupied, catalog_entry@, field_of(text), plan));
            match plan {
                Err(e) => Err(e),
                Ok(library_entry) => try_copy_catalog_entry(
                    catalog_entry.path.as_str(),
                    library_entry,
                    announce,
                    occupied,
                    copy,
                ),
            }
        },
    }
}

/// The entries among `outcomes`, in their order.
pub open spec fn accepted(outcomes: Seq<Result<LibraryEntry, Error>>) -> Seq<LibraryEntry>
    decreases outcomes.len(),
{
    if outcomes.len() == 0 {
        Seq::empty()
    } else {
        match outcomes.last() {
            Ok(entry) => accepted(outcomes.drop_last()).push(entry),
            Err(_) => accepted(outcomes.drop_last()),
        }
    }
}

/// The failures among `outcomes`, in their order.
pub open spec fn rejected(outcomes: Seq<Result<LibraryEntry, Error>>) -> Seq<Error>
    decreases outcomes.len(),
{
    if outcomes.len() == 0 {
        Seq::empty()
    } else {
        match outcomes.last() {
            Ok(_) => rejected(outcomes.drop_last()),
            Err(e) => rejected(outcomes.drop_last()).push(e),
        }
    }
}

/// Whether `outcomes` can be what became of the pictures of `candidates`, row
/// by row.
pub open spec fn attempted<
    D: Fn(&str) -> Result<Option<String>, Error>,
    A: Fn(&str, &str),
    O: Fn(&str) -> bool,
    C: Fn(&str, &str) -> Result<String, Error>,
>(
    date_text: D,
    announce: A,
    occupied: O,
    copy: C,
    candidates: Seq<Row>,
    outcomes: Seq<Result<LibraryEntry, Error>>,
) -> bool {
    &&& outcomes.len() == candidates.len()
    &&& forall|i: int|
        0 <= i < candidates.len() ==> #[trigger] entry_imported(
            date_text,
            announce,
            occupied,
            copy,
            candidates[i],
            outcomes[i],
        )
}

/// Whether `entry` stands for the picture of the catalog row `row` and was
/// checked: it has the digest of the row, and `copy` found that digest at the
/// path of the entry after it had copied the file of the row there.
pub open spec fn verified_copy_of<C: Fn(&str, &str) -> Result<String, Error>>(
    copy: C,
    row: Row,
    entry: LibraryEntry,
) -> bool {
    &&& entry.sha256@ == row.sha256
    &&& exists|copy_sha256: String| #[trigger]
        copying(copy, row.path, entry.path@, Ok(copy_sha256)) && copy_sha256@ == row.sha256
}

/// An entry that came through the import of a row is a verified copy of it.
pub proof fn lemma_imported_keeps_digest<
    D: Fn(&str) -> Result<Option<String>, Error>,
    A: Fn(&str, &str),
    O: Fn(&str) -> bool,
    C: Fn(&str, &str) -> Result<String, Error>,
>(date_text: D, announce: A, occupied: O, copy: C, row: Row, entry: LibraryEntry)
    requires
        entry_imported(date_text, announce, occupied, copy, row, Ok(entry)),
    ensures
        verified_copy_of(copy, row, entry),
{
    let r = Ok::<LibraryEntry, Error>(entry);
    let read = choose|read: Result<Option<String>, Error>| #[trigger]
        reading(date_text, row.path, read) && match read {
            Err(e) => r == Err::<LibraryEntry, Error>(e),
            Ok(text) => exists|plan: Result<LibraryEntry, Error>| #[trigger]
                planned(occupied, row, field_of(text), plan) && match plan {
                    Err(e) => r == Err::<LibraryEntry, Error>(e),
                    Ok(entry) => try_copied(announce, occupied, copy, row.path, entry, r),
                },
        };
    let text = read->Ok_0;
    let plan = choose|plan: Result<LibraryEntry, Error>| #[trigger]
        planned(occupied, row, field_of(text), plan) && match plan {
            Err(e) => r == Err::<LibraryEntry, Error>(e),
            Ok(entry) => try_copied(announce, occupied, copy, row.path, entry, r),
        };
    let planned_entry = plan->Ok_0;
    assert(try_copied(announce, occupied, copy, row.path, planned_entry, r));
    assert(copied(copy, row.path, planned_entry, r));
    let outcome = choose|outcome: Result<String, Error>| #[trigger]
        copying(copy, row.path, planned_entry.path@, outcome) && match outcome {
            Err(e) => r == Err::<LibraryEntry, Error>(e),
            Ok(copy_sha256) => if copy_sha256@ == planned_entry.sha256@ {
                r == Ok::<LibraryEntry, Error>(planned_entry)
            } else {
                r is Err && r->Err_0@ == (Failure::CopyVerification {
                    from: row.path,
                    to: planned_entry.path@,
                })
            },
        };
    assert(copying(copy, row.path, entry.path@, Ok(outcome->Ok_0)));
}

/// Every entry that an import hands to the library is a verified copy of one
/// of the candidates: a picture whose copy has another digest than its catalog
/// row is never among them.
pub proof fn lemma_recorded_entries_are_verified<
    D: Fn(&str) -> Result<Option<String>, Error>,
    A: Fn(&str, &str),
    O: Fn(&str) -> bool,
    C: Fn(&str, &str) -> Result<String, Error>,
>(
    date_text: D,
    announce: A,
    occupied: O,
    copy: C,
    candidates: Seq<Row>,
    outcomes: Seq<Result<LibraryEntry, Error>>,
    a: int,
)
    requires
        attempted(date_text, announce, occupied, copy, candidates, outcomes),
        0 <= a < accepted(outcomes).len(),
    ensures
        exists|i: int|
            0 <= i < candidates.len() && #[trigger] outcomes[i] == Ok::<LibraryEntry, Error>(
                accepted(outcomes)[a],
            ) && verified_copy_of(copy, candidates[i], accepted(outcomes)[a]),
    decreases outcomes.len(),
{
    let last = outcomes.len() - 1;
    let earlier = accepted(outcomes.drop_last());
    if outcomes.last() is Ok && a == earlier.len() {
        assert(entry_imported(date_text, announce, occupied, copy, candidates[last], outcomes[last]));
        lemma_imported_keeps_digest(
            date_text,
            announce,
            occupied,
            copy,
            candidates[last],
            accepted(outcomes)[a],
        );
    } else {
        assert forall|i: int| 0 <= i < last implies #[trigger] entry_imported(
            date_text,
            announce,
            occupied,
            copy,
            candidates.drop_last()[i],
            outcomes.drop_last()[i],
        ) by {
            assert(entry_imported(date_text, announce, occupied, copy, candidates[i], outcomes[i]));
        }
        lemma_recorded_entries_are_verified(
            date_text,
            announce,
            occupied,
            copy,
            candidates.drop_last(),
            outcomes.drop_last(),
            a,
        );
        let i = choose|i: int|
            0 <= i < last && #[trigger] outcomes.drop_last()[i] == Ok::<LibraryEntry, Error>(
                earlier[a],
            ) && verified_copy_of(copy, candidates.drop_last()[i], earlier[a]);
        assert(outcomes[i] == Ok::<LibraryEntry, Error>(accepted(outcomes)[a]));
        assert(verified_copy_of(copy, candidates[i], accepted(outcomes)[a]));
    }
}

/// What an import reports: the failures of the pictures that were left out, in
/// the order of their catalog entries, and the number of library rows that
/// were recorded.
pub struct ImportReport {
    pub excluded: Vec<Error>,
    pub committed: Result<usize, Error>,
}

/// Imports the catalog entries under `path_prefix` that `select_from_catalog`
/// gives. Each picture is brought in as `import_entry` does; one that fails is
/// left out and reported, and the others go on. The entries that came through
/// are then recorded in the library in one batch, which is always accepted:
/// none of their digests is in the library, and no two of them share one.
pub fn import<D, A, O, C>(
    store: &mut Store,
    path_prefix: &str,
    date_text: &D,
    announce: &A,
    occupied: &O,
    copy: &C,
) -> (r: ImportReport) where
    D: Fn(&str) -> Result<Option<String>, Error>,
    A: Fn(&str, &str),
    O: Fn(&str) -> bool,
    C: Fn(&str, &str) -> Result<String, Error>,

    requires
        forall|p: &str| call_requires(*date_text, (p,)),
        forall|from: &str, to: &str| call_requires(*announce, (from, to)),
        forall|p: &str| call_requires(*occupied, (p,)),
        forall|source: &str, destination: &str| call_requires(*copy, (source, destination)),
    ensures
        exists|outcomes: Seq<Result<LibraryEntry, Error>>| #[trigger]
            attempted(
                *date_text,
                *announce,
                *occupied,
                *copy,
                importable(old(store)@.catalog, old(store)@.library, path_prefix@),
                outcomes,
            ) && r.excluded@ == rejected(outcomes) && r.committed == Ok::<usize, Error>(
                accepted(outcomes).len() as usize,
            ) && final(store)@.library == old(store)@.library + rows(accepted(outcomes)),
        final(store)@.catalog == old(store)@.catalog,
        old(store).wf() ==> final(store).wf(),
{
    let candidates = select_from_catalog(store, path_prefix);
    let ghost selected = rows(candidates@);
    let ghost library = store@.library;
    let mut entries: Vec<LibraryEntry> = Vec::new();
    let mut excluded: Vec<Error> = Vec::new();
    let ghost mut outcomes: Seq<Result<LibraryEntry, Error>> = Seq::empty();
    let mut i: usize = 0;
    proof {
        lemma_importable(store@.catalog, store@.library, path_prefix@);
    }
    while i < candidates.len()
        invariant
            i <= candidates.len(),
            selected == rows(candidates@),
            store@ == old(store)@,
            library == store@.library,
            distinct_digests(selected),
            forall|j: int| 0 <= j < selected.len() ==> !has_digest(library, (#[trigger] selected[j]).sha256),
            forall|p: &str| call_requires(*date_text, (p,)),
            forall|from: &str, to: &str| call_requires(*announce, (from, to)),
            forall|p: &str| call_requires(*occupied, (p,)),
            forall|source: &str, destination: &str| call_requires(*copy, (source, destination)),
            attempted(*date_text, *announce, *occupied, *copy, selected.take(i as int), outcomes),
            entries@ == accepted(outcomes),
            excluded@ == rejected(outcomes),
            entries.len() <= i,
            forall|a: int|
                0 <= a < entries.len() ==> exists|j: int|
                    0 <= j < i && (#[trigger] selected[j]).sha256 == (#[trigger] rows(entries@)[a]).sha256,
            distinct_digests(rows(entries@)),
        decreases candidates.len() - i,
    {
        let outcome = import_entry(&candidates[i], date_text, announce, occupied, copy);
        let ghost earlier = outcomes;
        let ghost earlier_rows = rows(entries@);
        proof {
            assert(selected[i as int] == candidates[i as int]@);
            outcomes = outcomes.push(outcome);
            assert(outcomes.drop_last() =~= earlier);
            assert forall|j: int| 0 <= j < i + 1 implies #[trigger] entry_imported(
                *date_text,
                *announce,
                *occupied,
                *copy,
                selected.take(i + 1)[j],
                outcomes[j],
            ) by {
                if j < i {
                    assert(entry_imported(
                        *date_text,
                        *announce,
                        *occupied,
                        *copy,
                        selected.take(i as int)[j],
                        earlier[j],
                    ));
                }
            }
        }
        match outcome {
            Ok(library_entry) => {
                proof {
                    lemma_imported_keeps_digest(
                        *date_text,
                        *announce,
                        *occupied,
                        *copy,
                        selected[i as int],
                        library_entry,
                    );
                }
                entries.push(library_entry);
                proof {
                    assert(rows(entries@) =~= earlier_rows.push(library_entry@));
                    assert forall|a: int| 0 <= a < entries.len() implies exists|j: int|
                        0 <= j < i + 1 && (#[trigger] selected[j]).sha256 == (#[trigger] rows(
                            entries@,
                        )[a]).sha256 by {
                        if a < entries.len() - 1 {
                            let j = choose|j: int|
                                0 <= j < i && (#[trigger] selected[j]).sha256 == (
                                #[trigger] earlier_rows[a]).sha256;
                            assert(selected[j].sha256 == rows(entries@)[a].sha256);
                        } else {
                            assert(selected[i as int].sha256 == rows(entries@)[a].sha256);
                        }
                    }
                    assert forall|a: int, b: int|
                        0 <= a < b < rows(entries@).len() implies (#[trigger] rows(
                        entries@,
                    )[a]).sha256 != (#[trigger] rows(entries@)[b]).sha256 by {
                        if b == entries.len() - 1 {
                            let j = choose|j: int|
                                0 <= j < i && (#[trigger] selected[j]).sha256 == (
                                #[trigger] earlier_rows[a]).sha256;
                            assert(selected[j].sha256 != selected[i as int].sha256);
                        } else {
                            assert(earlier_rows[a].sha256 != earlier_rows[b].sha256);
                        }
                    }
                }
            },
            Err(e) => {
                excluded.push(e);
            },
        }
        i += 1;
    }
    proof {
        assert(selected.take(candidates.len() as int) =~= selected);
        let batch = rows(entries@);
        assert forall|k: int| 0 <= k < batch.len() implies !#[trigger] digest_taken(
            library,
            batch,
            k,
        ) by {
            let held = library + batch.take(k);
            let j = choose|j: int|
                0 <= j < selected.len() && (#[trigger] selected[j]).sha256 == (#[trigger] rows(
                    entries@,
                )[k]).sha256;
            if has_digest(held, batch[k].sha256) {
                let h = choose|h: int|
                    0 <= h < held.len() && (#[trigger] held[h]).sha256 == batch[k].sha256;
                if h < library.len() {
                    assert(library[h].sha256 == selected[j].sha256);
                    assert(has_digest(library, selected[j].sha256));
                } else {
                    assert(batch[h - library.len()].sha256 == batch[k].sha256);
                }
            }
        }
    }
    let committed = persist_library_entries(store, &entries);
    ImportReport { excluded, committed }
}

} // verus!
