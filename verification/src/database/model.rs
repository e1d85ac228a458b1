//! The metadata store as mathematics: rows of text, and what the tables
//! promise of them.
use vstd::prelude::*;

verus! {

/// A row of either table: a content digest and the path of a file.
pub struct Row {
    pub sha256: Seq<char>,
    pub path: Seq<char>,
}

/// The rows that a sequence of entries stands for.
pub open spec fn rows<T: View<V = Row>>(entries: Seq<T>) -> Seq<Row> {
    Seq::new(entries.len(), |i: int| entries[i]@)
}

/// Whether some row has the path `path`.
pub open spec fn has_path(rows: Seq<Row>, path: Seq<char>) -> bool {
    exists|i: int| 0 <= i < rows.len() && (#[trigger] rows[i]).path == path
}

/// Whether some row has the digest `sha256`.
pub open spec fn has_digest(rows: Seq<Row>, sha256: Seq<char>) -> bool {
    exists|i: int| 0 <= i < rows.len() && (#[trigger] rows[i]).sha256 == sha256
}

/// No two rows share a path.
pub open spec fn distinct_paths(rows: Seq<Row>) -> bool {
    forall|i: int, j: int|
        0 <= i < j < rows.len() ==> (#[trigger] rows[i]).path != (#[trigger] rows[j]).path
}

/// No two rows share a digest.
pub open spec fn distinct_digests(rows: Seq<Row>) -> bool {
    forall|i: int, j: int|
        0 <= i < j < rows.len() ==> (#[trigger] rows[i]).sha256 != (#[trigger] rows[j]).sha256
}

/// The two tables of the store, each in the order in which its rows came.
pub struct Tables {
    pub catalog: Seq<Row>,
    pub library: Seq<Row>,
}

impl Tables {
    /// A path stands once in the catalog, a digest once in the library.
    pub open spec fn consistent(self) -> bool {
        distinct_paths(self.catalog) && distinct_digests(self.library)
    }
}

/// The test that a row has the digest `sha256`.
pub open spec fn digest_is(sha256: Seq<char>) -> spec_fn(Row) -> bool {
    |row: Row| row.sha256 == sha256
}

/// The test that `rows` holds the digest of a row.
pub open spec fn digest_among(rows: Seq<Row>) -> spec_fn(Row) -> bool {
    |row: Row| has_digest(rows, row.sha256)
}

/// The test that `rows` does not hold a row.
pub open spec fn not_among(rows: Seq<Row>) -> spec_fn(Row) -> bool {
    |row: Row| !rows.contains(row)
}

/// The rows of `rows` whose digest is `sha256`, in their order.
pub open spec fn with_digest(rows: Seq<Row>, sha256: Seq<char>) -> Seq<Row> {
    rows.filter(digest_is(sha256))
}

/// The catalog rows that are ready for import under `prefix`: the path begins
/// with `prefix`, the library does not hold the digest, and no earlier such
/// row has the same digest.
pub open spec fn importable(catalog: Seq<Row>, library: Seq<Row>, prefix: Seq<char>) -> Seq<Row>
    decreases catalog.len(),
{
    if catalog.len() == 0 {
        Seq::empty()
    } else {
        let earlier = importable(catalog.drop_last(), library, prefix);
        let row = catalog.last();
        if prefix.is_prefix_of(row.path) && !has_digest(library, row.sha256) && !has_digest(
            earlier,
            row.sha256,
        ) {
            earlier.push(row)
        } else {
            earlier
        }
    }
}

/// What `importable` promises: every row it gives is a catalog row under the
/// prefix, the library holds none of their digests, and no two of them share
/// one.
pub proof fn lemma_importable(catalog: Seq<Row>, library: Seq<Row>, prefix: Seq<char>)
    ensures
        distinct_digests(importable(catalog, library, prefix)),
        forall|i: int|
            0 <= i < importable(catalog, library, prefix).len() ==> {
                let row = #[trigger] importable(catalog, library, prefix)[i];
                &&& catalog.contains(row)
                &&& prefix.is_prefix_of(row.path)
                &&& !has_digest(library, row.sha256)
            },
    decreases catalog.len(),
{
    if catalog.len() > 0 {
        let earlier = importable(catalog.drop_last(), library, prefix);
        lemma_importable(catalog.drop_last(), library, prefix);
        let all = importable(catalog, library, prefix);
        assert forall|i: int| 0 <= i < all.len() implies catalog.contains(#[trigger] all[i]) by {
            if i < earlier.len() {
                assert(catalog.drop_last().contains(earlier[i]));
                let k = choose|k: int|
                    0 <= k < catalog.drop_last().len() && catalog.drop_last()[k] == earlier[i];
                assert(catalog[k] == all[i]);
            } else {
                assert(catalog[catalog.len() - 1] == all[i]);
            }
        }
    }
}

/// The catalog rows whose digest the library holds too, in catalog order.
pub open spec fn already_imported(catalog: Seq<Row>, library: Seq<Row>) -> Seq<Row> {
    catalog.filter(digest_among(library))
}

/// Whether the `i`-th row is the first of its digest: no row before it has
/// the same one.
pub open spec fn first_of_digest(rows: Seq<Row>, i: int) -> bool {
    !has_digest(rows.take(i), rows[i].sha256)
}

/// The groups of rows that share a digest with another row, one group for each
/// such digest among the first `n` rows, in the order of each digest's first row.
/// A group holds every row of that digest, in table order.
pub open spec fn duplicate_groups_upto(rows: Seq<Row>, n: int) -> Seq<Seq<Row>>
    decreases n,
{
    if n <= 0 {
        Seq::empty()
    } else {
        let earlier = duplicate_groups_upto(rows, n - 1);
        let sha256 = rows[n - 1].sha256;
        if !has_digest(rows.take(n - 1), sha256) && with_digest(rows, sha256).len() > 1 {
            earlier.push(with_digest(rows, sha256))
        } else {
            earlier
        }
    }
}

/// The groups of rows that share a digest, one for each digest that stands in
/// more than one row.
pub open spec fn duplicate_groups(rows: Seq<Row>) -> Seq<Seq<Row>> {
    duplicate_groups_upto(rows, rows.len() as int)
}

/// The rows of each group.
pub open spec fn group_rows<T: View<V = Row>>(groups: Seq<Vec<T>>) -> Seq<Seq<Row>> {
    Seq::new(groups.len(), |i: int| rows(groups[i]@))
}

/// `rows` without those that `removed` holds.
pub open spec fn without(rows: Seq<Row>, removed: Seq<Row>) -> Seq<Row> {
    rows.filter(not_among(removed))
}

/// Whether the `k`-th row of `batch` cannot enter a catalog that holds `rows`
/// and the rows of the batch before it: its path is taken.
pub open spec fn path_taken(rows: Seq<Row>, batch: Seq<Row>, k: int) -> bool {
    has_path(rows + batch.take(k), batch[k].path)
}

/// Whether the `k`-th row of `batch` cannot enter a library that holds `rows`
/// and the rows of the batch before it: its digest is taken.
pub open spec fn digest_taken(rows: Seq<Row>, batch: Seq<Row>, k: int) -> bool {
    has_digest(rows + batch.take(k), batch[k].sha256)
}

/// No row of `batch` before the `n`-th finds its path taken.
pub open spec fn paths_free(rows: Seq<Row>, batch: Seq<Row>, n: int) -> bool {
    forall|k: int| 0 <= k < n ==> !#[trigger] path_taken(rows, batch, k)
}

/// No row of `batch` before the `n`-th finds its digest taken.
pub open spec fn digests_free(rows: Seq<Row>, batch: Seq<Row>, n: int) -> bool {
    forall|k: int| 0 <= k < n ==> !#[trigger] digest_taken(rows, batch, k)
}

/// The first `n` rows, or all of them where there are fewer.
pub open spec fn first_rows(rows: Seq<Row>, n: nat) -> Seq<Row> {
    if n <= rows.len() {
        rows.take(n as int)
    } else {
        rows
    }
}

} // verus!
