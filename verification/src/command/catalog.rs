//! Catalog: the files found under a directory are fingerprinted and recorded
//! together.
use vstd::prelude::*;
use vstd::string::*;

use crate::database::catalog::{catalog_batch, persist_catalog_entries};
use crate::database::catalog_entry::CatalogEntry;
use crate::database::model::rows;
use crate::database::Store;
use crate::error::Error;
use crate::text::texts;

verus! {

pub const CATALOG: &'static str = "catalog";

/// The command that records what a directory holds.
pub struct Catalog;

impl Catalog {
    pub fn name(&self) -> (r: &'static str)
        ensures
            r@ == CATALOG@,
    {
        CATALOG
    }
}

/// Whether a file or directory of this name is passed over: the name begins
/// with a dot, goes on for at least one more byte, and that byte is no dot.
pub open spec fn hidden(file_name: Seq<u8>) -> bool {
    file_name.len() >= 2 && file_name[0] == 46 && file_name[1] != 46
}

/// Returns true when a file name begins with a single dot.
pub fn is_hidden_file_name(file_name: &[u8]) -> (r: bool)
    ensures
        r == hidden(file_name@),
{
    file_name.len() >= 2 && file_name[0] == 46 && file_name[1] != 46
}

/// Whether `fingerprint` can return `outcome` when it is handed the path `path`.
pub open spec fn fingerprinting<F: Fn(&str) -> Result<CatalogEntry, Error>>(
    fingerprint: F,
    path: Seq<char>,
    outcome: Result<CatalogEntry, Error>,
) -> bool {
    exists|p: &str| p@ == path && #[trigger] call_ensures(fingerprint, (p,), outcome)
}

/// Whether `outcomes` can be what `fingerprint` made of `paths`, path by path.
pub open spec fn scanned<F: Fn(&str) -> Result<CatalogEntry, Error>>(
    fingerprint: F,
    paths: Seq<Seq<char>>,
    outcomes: Seq<Result<CatalogEntry, Error>>,
) -> bool {
    &&& outcomes.len() == paths.len()
    &&& forall|i: int|
        0 <= i < paths.len() ==> #[trigger] fingerprinting(fingerprint, paths[i], outcomes[i])
}

/// The entries among `outcomes`, in their order.
pub open spec fn found(outcomes: Seq<Result<CatalogEntry, Error>>) -> Seq<CatalogEntry>
    decreases outcomes.len(),
{
    if outcomes.len() == 0 {
        Seq::empty()
    } else {
        match outcomes.last() {
            Ok(entry) => found(outcomes.drop_last()).push(entry),
            Err(_) => found(outcomes.drop_last()),
        }
    }
}

/// The paths of `paths` at which `outcomes` has a failure, in their order.
pub open spec fn passed_over(
    paths: Seq<Seq<char>>,
    outcomes: Seq<Result<CatalogEntry, Error>>,
) -> Seq<Seq<char>>
    decreases outcomes.len(),
{
    if outcomes.len() == 0 || paths.len() != outcomes.len() {
        Seq::empty()
    } else {
        match outcomes.last() {
            Ok(_) => passed_over(paths.drop_last(), outcomes.drop_last()),
            Err(_) => passed_over(paths.drop_last(), outcomes.drop_last()).push(paths.last()),
        }
    }
}

/// What a scan reports: the paths that could not be fingerprinted, in the
/// order of the scan, and the number of catalog rows that were recorded.
pub struct CatalogReport {
    pub skipped: Vec<String>,
    pub committed: Result<usize, Error>,
}

/// Records the files at `paths` in the catalog. `fingerprint` makes the
/// catalog entry of a file; a file for which it fails is passed over and
/// reported, and the scan goes on. The entries of the other files are recorded
/// in one batch, as `catalog_batch` says.
pub fn catalog<F>(store: &mut Store, paths: &Vec<String>, fingerprint: &F) -> (r:
    CatalogReport) where F: Fn(&str) -> Result<CatalogEntry, Error>
    requires
        forall|p: &str| call_requires(*fingerprint, (p,)),
    ensures
        exists|outcomes: Seq<Result<CatalogEntry, Error>>| #[trigger]
            scanned(*fingerprint, texts(paths@), outcomes) && texts(r.skipped@) == passed_over(
                texts(paths@),
                outcomes,
            ) && catalog_batch(
                old(store)@.catalog,
                rows(found(outcomes)),
                final(store)@.catalog,
                r.committed,
            ),
        final(store)@.library == old(store)@.library,
        old(store).wf() ==> final(store).wf(),
{
    let ghost all = texts(paths@);
    let mut entries: Vec<CatalogEntry> = Vec::new();
    let mut skipped: Vec<String> = Vec::new();
    let ghost mut outcomes: Seq<Result<CatalogEntry, Error>> = Seq::empty();
    let mut i: usize = 0;
    proof {
        assert(texts(skipped@) =~= Seq::<Seq<char>>::empty());
    }
    while i < paths.len()
        invariant
            i <= paths.len(),
            all == texts(paths@),
            forall|p: &str| call_requires(*fingerprint, (p,)),
            scanned(*fingerprint, all.take(i as int), outcomes),
            entries@ == found(outcomes),
            texts(skipped@) == passed_over(all.take(i as int), outcomes),
        decreases paths.len() - i,
    {
        let outcome = fingerprint(paths[i].as_str());
        let ghost earlier = outcomes;
        let ghost earlier_skipped = texts(skipped@);
        proof {
            assert(fingerprinting(*fingerprint, all[i as int], outcome));
            outcomes = outcomes.push(outcome);
            assert(outcomes.drop_last() =~= earlier);
            assert(all.take(i + 1).drop_last() =~= all.take(i as int));
            assert forall|j: int| 0 <= j < i + 1 implies #[trigger] fingerprinting(
                *fingerprint,
                all.take(i + 1)[j],
                outcomes[j],
            ) by {
                if j < i {
                    assert(fingerprinting(*fingerprint, all.take(i as int)[j], earlier[j]));
                }
            }
        }
        match outcome {
            Ok(entry) => {
                entries.push(entry);
            },
            Err(_) => {
                skipped.push(paths[i].clone());
                assert(texts(skipped@) =~= earlier_skipped.push(all[i as int]));
            },
        }
        i += 1;
    }
    assert(all.take(paths.len() as int) =~= all);
    let committed = persist_catalog_entries(store, &entries);
    CatalogReport { skipped, committed }
}

} // verus!
