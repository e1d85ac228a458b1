//! Check: the stored digests are held against the files, and what the catalog
//! holds twice or the library holds already is listed.
use vstd::prelude::*;
use vstd::string::*;

use crate::database::catalog_entry::{hashing, CatalogEntry};
use crate::database::model::{group_rows, rows, Row, Tables};
use crate::database::{summarize, summary, Store};
use crate::error::{Error, Failure, Table};
use crate::text::{equal, join, joined, texts};

verus! {

pub const CHECK: &'static str = "check";

/// The command that audits the store.
pub struct Check;

impl Check {
    pub fn name(&self) -> (r: &'static str)
        ensures
            r@ == CHECK@,
    {
        CHECK
    }
}

/// What a run of the command looks at.
#[derive(Clone, Copy, Debug, PartialEq, Eq, Structural)]
pub enum CheckTarget {
    /// Whether each library file still has its recorded digest.
    Library,
    /// Whether each catalog file still has its recorded digest.
    Catalog,
    /// Which catalog entries share a digest.
    Duplicates,
    /// Which catalog entries the library holds already.
    Imported,
}

impl CheckTarget {
    /// The target that a subcommand name stands for.
    pub fn from_name(name: &str) -> (r: Option<CheckTarget>)
        ensures
            r == if name@ == "library"@ {
                Some(CheckTarget::Library)
            } else if name@ == "catalog"@ {
                Some(CheckTarget::Catalog)
            } else if name@ == "duplicates"@ {
                Some(CheckTarget::Duplicates)
            } else if name@ == "imported"@ {
                Some(CheckTarget::Imported)
            } else {
                None::<CheckTarget>
            },
    {
        if equal(name, "library") {
            Some(CheckTarget::Library)
        } else if equal(name, "catalog") {
            Some(CheckTarget::Catalog)
        } else if equal(name, "duplicates") {
            Some(CheckTarget::Duplicates)
        } else if equal(name, "imported") {
            Some(CheckTarget::Imported)
        } else {
            None
        }
    }
}

/// What the check of one row gives once the digest of its file was computed
/// anew: nothing to report if it is the recorded one, an `Integrity` failure
/// that names the path if it is another, and, where it could not be computed,
/// the failure to compute it under the path of the row.
pub open spec fn verdict(table: Table, row: Row, recomputed: Result<String, Error>) -> Result<
    (),
    Failure,
> {
    match recomputed {
        Ok(sha256) => if sha256@ == row.sha256 {
            Ok(())
        } else {
            Err(Failure::Integrity { table, path: row.path })
        },
        Err(e) => Err(Failure::ForEntry { path: row.path, message: e@.message() }),
    }
}

/// Every failure of a check names the row it is about: its text holds the
/// path of the row.
pub proof fn lemma_failure_names_the_row(
    table: Table,
    row: Row,
    recomputed: Result<String, Error>,
)
    requires
        verdict(table, row, recomputed) is Err,
    ensures
        exists|before: Seq<char>, after: Seq<char>|
            verdict(table, row, recomputed)->Err_0.message() == before + row.path + after,
{
    let text = verdict(table, row, recomputed)->Err_0.message();
    match recomputed {
        Ok(_) => {
            let before = match table {
                Table::Catalog => "Failed catalog check for "@,
                Table::Library => "Failed library check for "@,
            };
            assert(text =~= before + row.path + Seq::<char>::empty());
        },
        Err(e) => {
            assert(text =~= "For "@ + row.path + (": "@ + e@.message()));
        },
    }
}

/// Holds the recorded digest of a row of `table` against the digest that was
/// computed anew from the file at `path`.
pub fn check_entry(table: Table, sha256: &str, path: &str, recomputed: Result<String, Error>) -> (r:
    Result<(), Error>)
    ensures
        match r {
            Ok(_) => verdict(table, (Row { sha256: sha256@, path: path@ }), recomputed) is Ok,
            Err(e) => verdict(table, (Row { sha256: sha256@, path: path@ }), recomputed) == Err::<
                (),
                Failure,
            >(e@),
        },
{
    match recomputed {
        Ok(actual) => {
            if equal(sha256, actual.as_str()) {
                Ok(())
            } else {
                Err(Error::Integrity { table, path: String::from_str(path) })
            }
        },
        Err(e) => Err(Error::ForEntry { path: String::from_str(path), message: e.to_string() }),
    }
}

/// Whether `outcome` is what the check of the row `row` of `table` gives: no
/// failure where `verdict` has none, and the text of its failure otherwise.
pub open spec fn checked<H: Fn(&str) -> Result<String, Error>>(
    digest: H,
    table: Table,
    row: Row,
    outcome: Result<(), String>,
) -> bool {
    exists|recomputed: Result<String, Error>| #[trigger]
        hashing(digest, row.path, recomputed) && match verdict(table, row, recomputed) {
            Ok(_) => outcome is Ok,
            Err(failure) => outcome is Err && outcome->Err_0@ == failure.message(),
        }
}

/// Whether `outcomes` can be what the checks of `rows` gave, row by row.
pub open spec fn audited<H: Fn(&str) -> Result<String, Error>>(
    digest: H,
    table: Table,
    rows: Seq<Row>,
    outcomes: Seq<Result<(), String>>,
) -> bool {
    &&& outcomes.len() == rows.len()
    &&& forall|i: int|
        0 <= i < rows.len() ==> #[trigger] checked(digest, table, rows[i], outcomes[i])
}

/// In a pass over a table every check that failed names its row: the text
/// that the pass reports for the row holds the path of the row.
pub proof fn lemma_every_failed_check_names_its_row<H: Fn(&str) -> Result<String, Error>>(
    digest: H,
    table: Table,
    rows: Seq<Row>,
    outcomes: Seq<Result<(), String>>,
    i: int,
)
    requires
        audited(digest, table, rows, outcomes),
        0 <= i < rows.len(),
        outcomes[i] is Err,
    ensures
        exists|before: Seq<char>, after: Seq<char>|
            outcomes[i]->Err_0@ == before + rows[i].path + after,
{
    assert(checked(digest, table, rows[i], outcomes[i]));
    let recomputed = choose|recomputed: Result<String, Error>| #[trigger]
        hashing(digest, rows[i].path, recomputed) && match verdict(table, rows[i], recomputed) {
            Ok(_) => outcomes[i] is Ok,
            Err(failure) => outcomes[i] is Err && outcomes[i]->Err_0@ == failure.message(),
        };
    lemma_failure_names_the_row(table, rows[i], recomputed);
}

/// The rows of one table.
pub open spec fn rows_of(tables: Tables, table: Table) -> Seq<Row> {
    match table {
        Table::Catalog => tables.catalog,
        Table::Library => tables.library,
    }
}

/// Checks one row and writes the failure, if there is one, as text.
fn audit_entry<H>(table: Table, sha256: &str, path: &str, digest: &H) -> (r: Result<
    (),
    String,
>) where H: Fn(&str) -> Result<String, Error>
    requires
        forall|p: &str| call_requires(*digest, (p,)),
    ensures
        checked(*digest, table, (Row { sha256: sha256@, path: path@ }), r),
{
    let recomputed = digest(path);
    assert(hashing(*digest, path@, recomputed));
    match check_entry(table, sha256, path, recomputed) {
        Ok(_) => Ok(()),
        Err(e) => Err(e.to_string()),
    }
}

/// Checks every row of `table`, in table order, and sums up the checks.
fn audit<H>(store: &Store, table: Table, digest: &H) -> (r: Result<usize, Error>) where
    H: Fn(&str) -> Result<String, Error>,

    requires
        forall|p: &str| call_requires(*digest, (p,)),
    ensures
        exists|outcomes: Seq<Result<(), String>>| #[trigger]
            audited(*digest, table, rows_of(store@, table), outcomes) && summary(outcomes, r),
{
    let ghost all = rows_of(store@, table);
    let count = match table {
        Table::Catalog => store.catalog_entries().len(),
        Table::Library => store.library_entries().len(),
    };
    let mut outcomes: Vec<Result<(), String>> = Vec::new();
    let mut i: usize = 0;
    while i < count
        invariant
            i <= count == all.len(),
            all == rows_of(store@, table),
            forall|p: &str| call_requires(*digest, (p,)),
            audited(*digest, table, all.take(i as int), outcomes@),
        decreases count - i,
    {
        let ghost earlier = outcomes@;
        let outcome = match table {
            Table::Catalog => {
                let entry = &store.catalog_entries()[i];
                assert(all[i as int] == entry@);
                audit_entry(table, entry.sha256(), entry.path(), digest)
            },
            Table::Library => {
                let entry = &store.library_entries()[i];
                assert(all[i as int] == entry@);
                audit_entry(table, entry.sha256(), entry.path(), digest)
            },
        };
        outcomes.push(outcome);
        proof {
            assert forall|j: int| 0 <= j < i + 1 implies #[trigger] checked(
                *digest,
                table,
                all.take(i + 1)[j],
                outcomes@[j],
            ) by {
                if j < i {
                    assert(checked(*digest, table, all.take(i as int)[j], earlier[j]));
                }
            }
        }
        i += 1;
    }
    assert(all.take(count as int) =~= all);
    let r = summarize(&outcomes);
    assert(audited(*digest, table, all, outcomes@) && summary(outcomes@, r));
    r
}

/// Holds every catalog row against its file: `digest` computes the digest of
/// the file at a path. Every row is checked, whatever the rows before it gave.
/// The result is the number of rows where all are sound, and otherwise one
/// failure that holds the text of each failed check, in catalog order. Each
/// of these texts names the path of its row.
pub fn check_catalog_integrity<H>(store: &Store, digest: &H) -> (r: Result<usize, Error>) where
    H: Fn(&str) -> Result<String, Error>,

    requires
        forall|p: &str| call_requires(*digest, (p,)),
    ensures
        exists|outcomes: Seq<Result<(), String>>| #[trigger]
            audited(*digest, Table::Catalog, store@.catalog, outcomes) && summary(outcomes, r),
{
    audit(store, Table::Catalog, digest)
}

/// Holds every library row against its file, as `check_catalog_integrity`
/// does for the catalog.
pub fn check_library_integrity<H>(store: &Store, digest: &H) -> (r: Result<usize, Error>) where
    H: Fn(&str) -> Result<String, Error>,

    requires
        forall|p: &str| call_requires(*digest, (p,)),
    ensures
        exists|outcomes: Seq<Result<(), String>>| #[trigger]
            audited(*digest, Table::Library, store@.library, outcomes) && summary(outcomes, r),
{
    audit(store, Table::Library, digest)
}

/// The paths of `rows`, in their order.
pub open spec fn paths_of(rows: Seq<Row>) -> Seq<Seq<char>> {
    Seq::new(rows.len(), |i: int| rows[i].path)
}

/// How a group of duplicates is listed: the digest that its rows share, a
/// colon, and below it the path of each row on a line of its own.
pub open spec fn group_listing(group: Seq<Row>) -> Seq<char> {
    (if group.len() > 0 {
        group[0].sha256
    } else {
        Seq::empty()
    }) + ":\n"@ + joined(paths_of(group), "\n"@)
}

/// The listings of `groups`, one below the other.
pub open spec fn duplicates_listing(groups: Seq<Seq<Row>>) -> Seq<char> {
    joined(Seq::new(groups.len(), |i: int| group_listing(groups[i])), "\n"@)
}

/// Lists the groups of duplicates that `find_duplicates` gives.
pub fn duplicates_report(groups: &Vec<Vec<CatalogEntry>>) -> (r: String)
    ensures
        r@ == duplicates_listing(group_rows(groups@)),
{
    let ghost all = group_rows(groups@);
    let mut listings: Vec<String> = Vec::new();
    let mut i: usize = 0;
    while i < groups.len()
        invariant
            i <= groups.len(),
            all == group_rows(groups@),
            listings.len() == i,
            forall|j: int| 0 <= j < i ==> (#[trigger] listings@[j])@ == group_listing(all[j]),
        decreases groups.len() - i,
    {
        let group = &groups[i];
        let mut paths: Vec<String> = Vec::new();
        let mut k: usize = 0;
        while k < group.len()
            invariant
                k <= group.len(),
                paths.len() == k,
                forall|j: int| 0 <= j < k ==> (#[trigger] paths@[j])@ == rows(group@)[j].path,
            decreases group.len() - k,
        {
            paths.push(group[k].path.clone());
            k += 1;
        }
        assert(texts(paths@) =~= paths_of(rows(group@)));
        let mut listing = if group.len() > 0 {
            group[0].sha256.clone()
        } else {
            String::new()
        };
        listing.append(":\n");
        listing.append(join(&paths, "\n").as_str());
        assert(all[i as int] == rows(group@));
        listings.push(listing);
        i += 1;
    }
    assert(texts(listings@) =~= Seq::new(all.len(), |i: int| group_listing(all[i])));
    join(&listings, "\n")
}

/// How the entries that the library holds already are listed: digest, a colon
/// and the path, each entry on a line of its own.
pub open spec fn imported_listing(rows: Seq<Row>) -> Seq<char> {
    joined(Seq::new(rows.len(), |i: int| rows[i].sha256 + ": "@ + rows[i].path), "\n"@)
}

/// Lists the entries that `find_already_imported` gives.
pub fn imported_report(entries: &Vec<CatalogEntry>) -> (r: String)
    ensures
        r@ == imported_listing(rows(entries@)),
{
    let mut lines: Vec<String> = Vec::new();
    let mut i: usize = 0;
    while i < entries.len()
        invariant
            i <= entries.len(),
            lines.len() == i,
            forall|j: int|
                0 <= j < i ==> (#[trigger] lines@[j])@ == rows(entries@)[j].sha256 + ": "@ + rows(
                    entries@,
                )[j].path,
        decreases entries.len() - i,
    {
        let mut line = entries[i].sha256.clone();
        line.append(": ");
        line.append(entries[i].path.as_str());
        lines.push(line);
        i += 1;
    }
    assert(texts(lines@) =~= Seq::new(
        rows(entries@).len(),
        |i: int| rows(entries@)[i].sha256 + ": "@ + rows(entries@)[i].path,
    ));
    join(&lines, "\n")
}

} // verus!
