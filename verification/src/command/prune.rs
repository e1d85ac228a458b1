//! Quarantine: catalog files that are no longer needed move to the trash, and
//! only then do their rows leave the catalog.
use vstd::prelude::*;
use vstd::string::*;

use crate::database::catalog::{find_already_imported, find_duplicates, remove_catalog_entries};
use crate::database::catalog_entry::CatalogEntry;
use crate::database::model::{
    already_imported, duplicate_groups, group_rows, rows, without, Row,
};
use crate::database::Store;
use crate::error::{Error, Failure};
use crate::path::{file_name, file_name_of, join, joined, parent_name, parent_name_of};
use crate::text::equal;

verus! {

pub const PRUNE: &'static str = "prune";

/// The directory that holds the quarantined files.
pub const TRASH: &'static str = ".trash";

/// The command that clears the catalog of what is no longer needed.
pub struct Prune;

impl Prune {
    pub fn name(&self) -> (r: &'static str)
        ensures
            r@ == PRUNE@,
    {
        PRUNE
    }
}

/// What a run of the command clears away.
#[derive(Clone, Copy, Debug, PartialEq, Eq, Structural)]
pub enum PruneTarget {
    /// Every entry but the first of each group of entries with one digest.
    Duplicates,
    /// Every entry whose digest the library holds.
    Imported,
}

impl PruneTarget {
    /// The target that a subcommand name stands for.
    pub fn from_name(name: &str) -> (r: Option<PruneTarget>)
        ensures
            r == if name@ == "duplicates"@ {
                Some(PruneTarget::Duplicates)
            } else if name@ == "imported"@ {
                Some(PruneTarget::Imported)
            } else {
                None::<PruneTarget>
            },
    {
        if equal(name, "duplicates") {
            Some(PruneTarget::Duplicates)
        } else if equal(name, "imported") {
            Some(PruneTarget::Imported)
        } else {
            None
        }
    }
}

/// Where the file at `path` goes in the trash: under the name of the
/// directory it stands in, and under its own name. Nothing more of its path is
/// kept. A path without a file name, or without a directory name before it,
/// has no place there.
pub open spec fn trash_path_of(path: Seq<char>) -> Result<Seq<char>, Failure> {
    match (parent_name(path), file_name(path)) {
        (Some(directory), Some(name)) => Ok(joined(joined(TRASH@, directory), name)),
        _ => Err(Failure::InvalidPath),
    }
}

/// Where the file of `entry` goes in the trash.
pub fn trash_path(entry: &CatalogEntry) -> (r: Result<String, Error>)
    ensures
        match r {
            Ok(path) => trash_path_of(entry.path@) == Ok::<Seq<char>, Failure>(path@),
            Err(e) => trash_path_of(entry.path@) == Err::<Seq<char>, Failure>(e@),
        },
{
    let directory = match parent_name_of(entry.path.as_str()) {
        Some(directory) => directory,
        None => {
            return Err(Error::InvalidPath);
        },
    };
    let filename = match file_name_of(entry.path.as_str()) {
        Some(filename) => filename,
        None => {
            return Err(Error::InvalidPath);
        },
    };
    let trash_directory = join(TRASH, directory.as_str());
    Ok(join(trash_directory.as_str(), filename.as_str()))
}

/// The rows of each group but its first, group after group.
pub open spec fn redundant_rows(groups: Seq<Seq<Row>>) -> Seq<Row>
    decreases groups.len(),
{
    if groups.len() == 0 {
        Seq::empty()
    } else if groups.last().len() == 0 {
        redundant_rows(groups.drop_last())
    } else {
        redundant_rows(groups.drop_last()) + groups.last().skip(1)
    }
}

/// The entries of each group but its first, group after group.
pub fn redundant(groups: &Vec<Vec<CatalogEntry>>) -> (r: Vec<CatalogEntry>)
    ensures
        rows(r@) == redundant_rows(group_rows(groups@)),
{
    let ghost all = group_rows(groups@);
    let mut out: Vec<CatalogEntry> = Vec::new();
    let mut i: usize = 0;
    proof {
        assert(rows(out@) =~= Seq::<Row>::empty());
    }
    while i < groups.len()
        invariant
            i <= groups.len(),
            all == group_rows(groups@),
            rows(out@) == redundant_rows(all.take(i as int)),
        decreases groups.len() - i,
    {
        let group = &groups[i];
        let ghost before = rows(out@);
        proof {
            let upto = all.take(i + 1);
            assert(upto.drop_last() =~= all.take(i as int));
            assert(upto.last() == rows(group@));
        }
        let mut j: usize = 1;
        while j < group.len()
            invariant
                1 <= j,
                group.len() > 0 ==> j <= group.len(),
                group.len() > 0 ==> rows(out@) == before + rows(group@).subrange(1, j as int),
                group.len() == 0 ==> rows(out@) == before,
            decreases group.len() - j,
        {
            let ghost earlier = rows(out@);
            out.push(group[j].clone());
            proof {
                assert(rows(out@) =~= earlier.push(rows(group@)[j as int]));
                assert(rows(group@).subrange(1, j + 1) =~= rows(group@).subrange(1, j as int).push(
                    rows(group@)[j as int],
                ));
            }
            j += 1;
        }
        proof {
            if group.len() > 0 {
                assert(rows(group@).subrange(1, j as int) =~= rows(group@).skip(1));
            }
        }
        i += 1;
    }
    assert(all.take(groups.len() as int) =~= all);
    out
}

/// Whether `relocate` can return `outcome` when it is asked to move the file of
/// `row` to its place in the trash.
pub open spec fn relocation<F: FnMut(&str, &str) -> Result<(), Error>>(
    relocate: F,
    row: Row,
    outcome: Result<(), Error>,
) -> bool {
    exists|from: &str, to: &str|
        from@ == row.path && trash_path_of(row.path) == Ok::<Seq<char>, Failure>(to@)
            && #[trigger] call_ensures(relocate, (from, to), outcome)
}

/// Whether `relocate` was asked to move the file of `row` to its place in the
/// trash, and succeeded.
pub open spec fn moved<F: FnMut(&str, &str) -> Result<(), Error>>(relocate: F, row: Row) -> bool {
    exists|outcome: Result<(), Error>|
        outcome is Ok && #[trigger] relocation(relocate, row, outcome)
}

/// Whether the files of the first `n` rows were moved to the trash.
pub open spec fn relocated<F: FnMut(&str, &str) -> Result<(), Error>>(
    relocate: F,
    selected: Seq<Row>,
    n: int,
) -> bool {
    forall|i: int| 0 <= i < n ==> moved(relocate, #[trigger] selected[i])
}

/// Whether the move of the file of `row` failed with `e`: it has no place in
/// the trash, or `relocate` reported `e`.
pub open spec fn relocation_failed<F: FnMut(&str, &str) -> Result<(), Error>>(
    relocate: F,
    row: Row,
    e: Error,
) -> bool {
    ||| trash_path_of(row.path) == Err::<Seq<char>, Failure>(e@)
    ||| relocation(relocate, row, Err(e))
}

/// The failure that `r` holds, if it holds one.
pub open spec fn failure_of<T>(r: Result<T, Error>) -> Option<Error> {
    match r {
        Ok(_) => None,
        Err(e) => Some(e),
    }
}

/// Whether a catalog that held `before` holds `after` once the files of
/// `selected` were to be moved to the trash and the run ended with `failure`.
/// Without a failure `relocate` has moved the file of every selected row, and
/// the selected rows have left the catalog. With a failure the catalog is as
/// it was: `relocate` has moved the files of the rows before some row, and the
/// move for that row failed.
pub open spec fn pruned<F: FnMut(&str, &str) -> Result<(), Error>>(
    relocate: F,
    selected: Seq<Row>,
    before: Seq<Row>,
    after: Seq<Row>,
    failure: Option<Error>,
) -> bool {
    match failure {
        None => relocated(relocate, selected, selected.len() as int) && after == without(
            before,
            selected,
        ),
        Some(e) => after == before && exists|k: int|
            0 <= k < selected.len() && relocated(relocate, selected, k) && relocation_failed(
                relocate,
                #[trigger] selected[k],
                e,
            ),
    }
}

/// Moves the file of each of `entries` to the trash with `relocate`, in their
/// order, and then deletes their rows from the catalog in one step. The first
/// move that fails ends the run: no row is deleted then, and the files moved
/// before it stay in the trash. Rows leave the catalog only after `relocate`
/// has moved the file of every entry. The result is the number of files moved.
pub fn prune_entries<F>(store: &mut Store, entries: &Vec<CatalogEntry>, mut relocate: F) -> (r:
    Result<usize, Error>) where F: FnMut(&str, &str) -> Result<(), Error>
    requires
        forall|from: &str, to: &str| call_requires(relocate, (from, to)),
    ensures
        pruned(
            relocate,
            rows(entries@),
            old(store)@.catalog,
            final(store)@.catalog,
            failure_of(r),
        ),
        r is Ok ==> r->Ok_0 == entries.len(),
        final(store)@.catalog != old(store)@.catalog ==> relocated(
            relocate,
            rows(entries@),
            entries.len() as int,
        ),
        final(store)@.library == old(store)@.library,
        old(store).wf() ==> final(store).wf(),
{
    let ghost relocate0 = relocate;
    let mut count: usize = 0;
    let mut failure: Option<Error> = None;
    while count < entries.len() && failure.is_none()
        invariant
            count <= entries.len(),
            relocate == relocate0,
            store@ == old(store)@,
            forall|from: &str, to: &str| call_requires(relocate, (from, to)),
            relocated(relocate, rows(entries@), count as int),
            match failure {
                Some(e) => count < entries.len() && relocation_failed(
                    relocate,
                    rows(entries@)[count as int],
                    e,
                ),
                None => true,
            },
        decreases entries.len() - count + (if failure.is_none() { 1int } else { 0int }),
    {
        let entry = &entries[count];
        assert(rows(entries@)[count as int] == entry@);
        match trash_path(entry) {
            Ok(to) => {
                let outcome = relocate(entry.path.as_str(), to.as_str());
                assert(relocation(relocate, entry@, outcome));
                match outcome {
                    Ok(_) => {
                        assert(moved(relocate, rows(entries@)[count as int]));
                        count += 1;
                    },
                    Err(e) => {
                        failure = Some(e);
                    },
                }
            },
            Err(e) => {
                failure = Some(e);
            },
        }
    }
    match failure {
        Some(e) => Err(e),
        None => {
            remove_catalog_entries(store, entries);
            Ok(count)
        },
    }
}

/// Moves every catalog file but the first of each group of duplicates to the
/// trash and deletes their rows, as `prune_entries` does. The result holds the
/// entries that were cleared away.
pub fn prune_catalog_duplicates<F>(store: &mut Store, relocate: F) -> (r: Result<
    Vec<CatalogEntry>,
    Error,
>) where F: FnMut(&str, &str) -> Result<(), Error>
    requires
        forall|from: &str, to: &str| call_requires(relocate, (from, to)),
    ensures
        pruned(
            relocate,
            redundant_rows(duplicate_groups(old(store)@.catalog)),
            old(store)@.catalog,
            final(store)@.catalog,
            failure_of(r),
        ),
        r is Ok ==> rows(r->Ok_0@) == redundant_rows(duplicate_groups(old(store)@.catalog)),
        final(store)@.library == old(store)@.library,
        old(store).wf() ==> final(store).wf(),
{
    let duplicates = find_duplicates(store);
    let selected = redundant(&duplicates);
    match prune_entries(store, &selected, relocate) {
        Ok(_) => Ok(selected),
        Err(e) => Err(e),
    }
}

/// Moves every catalog file whose digest the library holds to the trash and
/// deletes their rows, as `prune_entries` does. The result holds the entries
/// that were cleared away.
pub fn prune_imported_catalog_entries<F>(store: &mut Store, relocate: F) -> (r: Result<
    Vec<CatalogEntry>,
    Error,
>) where F: FnMut(&str, &str) -> Result<(), Error>
    requires
        forall|from: &str, to: &str| call_requires(relocate, (from, to)),
    ensures
        pruned(
            relocate,
            already_imported(old(store)@.catalog, old(store)@.library),
            old(store)@.catalog,
            final(store)@.catalog,
            failure_of(r),
        ),
        r is Ok ==> rows(r->Ok_0@) == already_imported(
            old(store)@.catalog,
            old(store)@.library,
        ),
        final(store)@.library == old(store)@.library,
        old(store).wf() ==> final(store).wf(),
{
    let already_imported = find_already_imported(store);
    match prune_entries(store, &already_imported, relocate) {
        Ok(_) => Ok(already_imported),
        Err(e) => Err(e),
    }
}

} // verus!
