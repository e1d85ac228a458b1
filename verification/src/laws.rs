//! What holds of the store whatever it contains.
use vstd::prelude::*;

use crate::command::prune::redundant_rows;
use crate::database::catalog::catalog_batch;
use crate::database::common::{digest_of, DigestStream};
use crate::database::library::library_batch;
use crate::database::model::{
    digest_is, digest_taken, distinct_digests, distinct_paths, duplicate_groups,
    duplicate_groups_upto, first_of_digest, has_digest, importable, lemma_importable,
    not_among, path_taken,
    with_digest, without, Row,
};
use crate::error::Error;

verus! {

/// Files with the same bytes have the same digest, in whatever pieces each of
/// them was read.
pub proof fn lemma_same_bytes_same_digest(first: DigestStream, second: DigestStream)
    requires
        first.bytes() == second.bytes(),
    ensures
        digest_of(first.bytes()) == digest_of(second.bytes()),
{
}

/// A library batch in which two rows share a digest is refused, and the
/// library stays as it was.
pub proof fn lemma_shared_digest_is_refused(
    before: Seq<Row>,
    batch: Seq<Row>,
    after: Seq<Row>,
    r: Result<usize, Error>,
    i: int,
    j: int,
)
    requires
        library_batch(before, batch, after, r),
        0 <= i < j < batch.len(),
        batch[i].sha256 == batch[j].sha256,
    ensures
        r is Err,
        after == before,
{
    if r is Ok {
        assert(!digest_taken(before, batch, j));
        let held = before + batch.take(j);
        assert(held[before.len() + i].sha256 == batch[j].sha256);
    }
}

/// A library batch with a row whose digest the library holds is refused, and
/// the library stays as it was.
pub proof fn lemma_held_digest_is_refused(
    before: Seq<Row>,
    batch: Seq<Row>,
    after: Seq<Row>,
    r: Result<usize, Error>,
    k: int,
)
    requires
        library_batch(before, batch, after, r),
        0 <= k < batch.len(),
        has_digest(before, batch[k].sha256),
    ensures
        r is Err,
        after == before,
{
    if r is Ok {
        assert(!digest_taken(before, batch, k));
        let held = before + batch.take(k);
        let h = choose|h: int| 0 <= h < before.len() && (#[trigger] before[h]).sha256 == batch[k].sha256;
        assert(held[h].sha256 == batch[k].sha256);
    }
}

/// A catalog batch in which some row finds its path taken is refused, and not
/// one of its rows stays.
pub proof fn lemma_conflict_keeps_nothing(
    before: Seq<Row>,
    batch: Seq<Row>,
    after: Seq<Row>,
    r: Result<usize, Error>,
    k: int,
)
    requires
        catalog_batch(before, batch, after, r),
        0 <= k < batch.len(),
        path_taken(before, batch, k),
    ensures
        r is Err,
        after == before,
{
}

/// A catalog row whose digest the library holds is never given for import.
pub proof fn lemma_import_gating(
    catalog: Seq<Row>,
    library: Seq<Row>,
    prefix: Seq<char>,
    row: Row,
)
    requires
        has_digest(library, row.sha256),
    ensures
        !importable(catalog, library, prefix).contains(row),
{
    lemma_importable(catalog, library, prefix);
}

/// Every catalog row under the prefix whose digest the library does not hold
/// has its digest among the rows given for import.
pub proof fn lemma_import_reaches_every_digest(
    catalog: Seq<Row>,
    library: Seq<Row>,
    prefix: Seq<char>,
    i: int,
)
    requires
        0 <= i < catalog.len(),
        prefix.is_prefix_of(catalog[i].path),
        !has_digest(library, catalog[i].sha256),
    ensures
        has_digest(importable(catalog, library, prefix), catalog[i].sha256),
    decreases catalog.len(),
{
    let all = importable(catalog, library, prefix);
    let earlier = importable(catalog.drop_last(), library, prefix);
    if i < catalog.len() - 1 {
        lemma_import_reaches_every_digest(catalog.drop_last(), library, prefix, i);
        let k = choose|k: int|
            0 <= k < earlier.len() && (#[trigger] earlier[k]).sha256 == catalog[i].sha256;
        assert(all[k].sha256 == catalog[i].sha256);
    } else {
        if has_digest(earlier, catalog[i].sha256) {
            let k = choose|k: int|
                0 <= k < earlier.len() && (#[trigger] earlier[k]).sha256 == catalog[i].sha256;
            assert(all[k].sha256 == catalog[i].sha256);
        } else {
            assert(all[all.len() - 1].sha256 == catalog[i].sha256);
        }
    }
}

/// Every group of duplicates holds more than one row, and it holds exactly
/// the rows of one digest.
pub proof fn lemma_groups_are_shared_digests(rows: Seq<Row>, n: int, g: int)
    requires
        0 <= n <= rows.len(),
        0 <= g < duplicate_groups_upto(rows, n).len(),
    ensures
        duplicate_groups_upto(rows, n)[g].len() > 1,
        exists|i: int|
            0 <= i < n && duplicate_groups_upto(rows, n)[g] == with_digest(
                rows,
                (#[trigger] rows[i]).sha256,
            ),
    decreases n,
{
    if n > 0 {
        let earlier = duplicate_groups_upto(rows, n - 1);
        if g < earlier.len() {
            lemma_groups_are_shared_digests(rows, n - 1, g);
            let i = choose|i: int|
                0 <= i < n - 1 && earlier[g] == with_digest(rows, (#[trigger] rows[i]).sha256);
            assert(duplicate_groups_upto(rows, n)[g] == with_digest(rows, rows[i].sha256));
        } else {
            assert(duplicate_groups_upto(rows, n)[g] == with_digest(rows, rows[n - 1].sha256));
        }
    }
}

/// Every digest that stands in more than one of the rows has its group among
/// the groups of duplicates, once it has appeared among the first `n` rows.
pub proof fn lemma_shared_digests_are_grouped(rows: Seq<Row>, n: int, i: int)
    requires
        0 <= i < n <= rows.len(),
        with_digest(rows, rows[i].sha256).len() > 1,
    ensures
        duplicate_groups_upto(rows, n).contains(with_digest(rows, rows[i].sha256)),
    decreases n,
{
    let sha256 = rows[i].sha256;
    let groups = duplicate_groups_upto(rows, n);
    let earlier = duplicate_groups_upto(rows, n - 1);
    if i < n - 1 {
        lemma_shared_digests_are_grouped(rows, n - 1, i);
        let g = choose|g: int| 0 <= g < earlier.len() && earlier[g] == with_digest(rows, sha256);
        assert(groups[g] == with_digest(rows, sha256));
    } else {
        if has_digest(rows.take(n - 1), sha256) {
            let k = choose|k: int|
                0 <= k < rows.take(n - 1).len() && (#[trigger] rows.take(n - 1)[k]).sha256
                    == sha256;
            assert(rows[k].sha256 == sha256);
            lemma_shared_digests_are_grouped(rows, n - 1, k);
            let g = choose|g: int|
                0 <= g < earlier.len() && earlier[g] == with_digest(rows, sha256);
            assert(groups[g] == with_digest(rows, sha256));
        } else {
            assert(groups[groups.len() - 1] == with_digest(rows, sha256));
        }
    }
}

/// The groups of duplicates are exactly the digests that stand in more than
/// one catalog row, each with all its rows: a group is the rows of a shared
/// digest, and the rows of every shared digest are a group.
pub proof fn lemma_duplicate_grouping(rows: Seq<Row>)
    ensures
        forall|g: int|
            0 <= g < duplicate_groups(rows).len() ==> (#[trigger] duplicate_groups(rows)[g]).len()
                > 1,
        forall|g: int|
            0 <= g < duplicate_groups(rows).len() ==> exists|i: int|
                0 <= i < rows.len() && #[trigger] duplicate_groups(rows)[g] == with_digest(
                    rows,
                    (#[trigger] rows[i]).sha256,
                ),
        forall|i: int|
            0 <= i < rows.len() && with_digest(rows, (#[trigger] rows[i]).sha256).len() > 1
                ==> duplicate_groups(rows).contains(with_digest(rows, rows[i].sha256)),
{
    assert forall|g: int| 0 <= g < duplicate_groups(rows).len() implies (#[trigger] duplicate_groups(
        rows,
    )[g]).len() > 1 && exists|i: int|
        0 <= i < rows.len() && duplicate_groups(rows)[g] == with_digest(
            rows,
            (#[trigger] rows[i]).sha256,
        ) by {
        lemma_groups_are_shared_digests(rows, rows.len() as int, g);
    }
    assert forall|i: int|
        0 <= i < rows.len() && with_digest(
            rows,
            (#[trigger] rows[i]).sha256,
        ).len() > 1 implies duplicate_groups(rows).contains(with_digest(rows, rows[i].sha256)) by {
        lemma_shared_digests_are_grouped(rows, rows.len() as int, i);
    }
}

/// The rows of a group of duplicates are all the rows that carry its digest,
/// and no other: a row is in `with_digest` exactly when it is a row of the
/// catalog with that digest.
pub proof fn lemma_group_holds_every_path(rows: Seq<Row>, sha256: Seq<char>, row: Row)
    ensures
        with_digest(rows, sha256).contains(row) <==> rows.contains(row) && row.sha256 == sha256,
{
    let group = with_digest(rows, sha256);
    if group.contains(row) {
        rows.lemma_filter_contains_rev(digest_is(sha256), row);
    }
    if rows.contains(row) && row.sha256 == sha256 {
        let i = choose|i: int| 0 <= i < rows.len() && rows[i] == row;
        rows.lemma_filter_contains(digest_is(sha256), i);
    }
    if group.contains(row) {
        let k = choose|k: int| 0 <= k < group.len() && group[k] == row;
        rows.lemma_filter_pred(digest_is(sha256), k);
    }
}

/// No digest has two groups: the groups of duplicates begin with rows of
/// different digests.
pub proof fn lemma_groups_do_not_repeat(rows: Seq<Row>, n: int, g1: int, g2: int)
    requires
        0 <= n <= rows.len(),
        0 <= g1 < g2 < duplicate_groups_upto(rows, n).len(),
    ensures
        duplicate_groups_upto(rows, n)[g1][0].sha256 != duplicate_groups_upto(rows, n)[g2][0].sha256,
    decreases n,
{
    let groups = duplicate_groups_upto(rows, n);
    let earlier = duplicate_groups_upto(rows, n - 1);
    if g2 < earlier.len() {
        lemma_groups_do_not_repeat(rows, n - 1, g1, g2);
    } else {
        let sha256 = rows[n - 1].sha256;
        assert(groups[g2] == with_digest(rows, sha256));
        rows.lemma_filter_pred(digest_is(sha256), 0);
        lemma_groups_are_shared_digests(rows, n - 1, g1);
        let i = choose|i: int|
            0 <= i < n - 1 && earlier[g1] == with_digest(rows, (#[trigger] rows[i]).sha256);
        rows.lemma_filter_pred(digest_is(rows[i].sha256), 0);
        assert(groups[g1][0].sha256 == rows[i].sha256);
        assert(rows.take(n - 1)[i].sha256 == rows[i].sha256);
    }
}

/// To delete rows that are gone already changes nothing: a second removal of
/// the same rows leaves the catalog as the first left it.
pub proof fn lemma_removal_is_idempotent(rows: Seq<Row>, removed: Seq<Row>)
    ensures
        without(without(rows, removed), removed) == without(rows, removed),
    decreases rows.len(),
{
    reveal(Seq::filter);
    if rows.len() > 0 {
        let kept = without(rows.drop_last(), removed);
        lemma_removal_is_idempotent(rows.drop_last(), removed);
        if not_among(removed)(rows.last()) {
            kept.lemma_filter_push(rows.last(), not_among(removed));
        }
    }
}

/// A row that passes a test stands in the filtered rows at the place that the
/// rows before it leave it.
proof fn lemma_filter_rank(s: Seq<Row>, p: spec_fn(Row) -> bool, i: int)
    requires
        0 <= i < s.len(),
        p(s[i]),
    ensures
        s.take(i).filter(p).len() < s.filter(p).len(),
        s.filter(p)[s.take(i).filter(p).len() as int] == s[i],
{
    let upto = s.take(i + 1);
    let r = s.take(i).filter(p).len() as int;
    assert(upto =~= s.take(i).push(s[i]));
    s.take(i).lemma_filter_push(s[i], p);
    assert(upto =~= s.subrange(0, upto.len() as int));
    upto.lemma_filter_monotone(s, p);
    assert(upto.filter(p)[r] == s[i]);
    assert(s.filter(p).subrange(0, upto.filter(p).len() as int)[r] == s.filter(p)[r]);
}

/// Each of the filtered rows is one of the rows, passes the test, and stands
/// at the place that the rows before it leave it.
proof fn lemma_filter_source(s: Seq<Row>, p: spec_fn(Row) -> bool, k: int)
    requires
        0 <= k < s.filter(p).len(),
    ensures
        exists|i: int|
            0 <= i < s.len() && (#[trigger] s[i]) == s.filter(p)[k] && p(s[i]) && s.take(
                i,
            ).filter(p).len() == k,
    decreases s.len(),
{
    reveal(Seq::filter);
    let init = s.drop_last();
    if p(s.last()) && k == init.filter(p).len() {
        let i = s.len() - 1;
        assert(s.take(i) =~= init);
        assert(s[i] == s.filter(p)[k]);
    } else {
        lemma_filter_source(init, p, k);
        let i = choose|i: int|
            0 <= i < init.len() && (#[trigger] init[i]) == init.filter(p)[k] && p(init[i])
                && init.take(i).filter(p).len() == k;
        assert(s.take(i) =~= init.take(i));
        assert(s[i] == s.filter(p)[k]);
    }
}

/// The redundant rows are the rows that stand in some group behind its first.
proof fn lemma_redundant_membership(groups: Seq<Seq<Row>>, x: Row)
    ensures
        redundant_rows(groups).contains(x) <==> exists|g: int, k: int|
            0 <= g < groups.len() && 1 <= k < groups[g].len() && #[trigger] groups[g][k] == x,
    decreases groups.len(),
{
    if groups.len() > 0 {
        let init = groups.drop_last();
        let last = groups.last();
        let before = redundant_rows(init);
        let all = redundant_rows(groups);
        lemma_redundant_membership(init, x);
        if all.contains(x) {
            let j = choose|j: int| 0 <= j < all.len() && all[j] == x;
            if j < before.len() {
                assert(before[j] == x);
                let (g, k) = choose|g: int, k: int|
                    0 <= g < init.len() && 1 <= k < init[g].len() && #[trigger] init[g][k] == x;
                assert(groups[g][k] == x);
            } else {
                assert(groups[groups.len() - 1][j - before.len() + 1] == x);
            }
        }
        if exists|g: int, k: int|
            0 <= g < groups.len() && 1 <= k < groups[g].len() && #[trigger] groups[g][k] == x {
            let (g, k) = choose|g: int, k: int|
                0 <= g < groups.len() && 1 <= k < groups[g].len() && #[trigger] groups[g][k] == x;
            if g < groups.len() - 1 {
                assert(init[g][k] == x);
                let j = choose|j: int| 0 <= j < before.len() && before[j] == x;
                assert(all[j] == x);
            } else {
                assert(all[before.len() + k - 1] == x);
            }
        }
    }
}

/// A catalog row that is not the first of its digest is one of the redundant
/// rows.
proof fn lemma_later_rows_are_redundant(catalog: Seq<Row>, i: int)
    requires
        0 <= i < catalog.len(),
        has_digest(catalog.take(i), catalog[i].sha256),
    ensures
        redundant_rows(duplicate_groups(catalog)).contains(catalog[i]),
{
    let sha256 = catalog[i].sha256;
    let p = digest_is(sha256);
    let group = with_digest(catalog, sha256);
    let j = choose|j: int|
        0 <= j < catalog.take(i).len() && (#[trigger] catalog.take(i)[j]).sha256 == sha256;
    catalog.take(i).lemma_filter_contains(p, j);
    lemma_filter_rank(catalog, p, i);
    let r = catalog.take(i).filter(p).len() as int;
    lemma_shared_digests_are_grouped(catalog, catalog.len() as int, i);
    let groups = duplicate_groups(catalog);
    let g = choose|g: int| 0 <= g < groups.len() && groups[g] == group;
    lemma_redundant_membership(groups, catalog[i]);
    assert(groups[g][r] == catalog[i]);
}

/// Each of the redundant rows is a catalog row that is not the first of its
/// digest.
proof fn lemma_redundant_rows_are_later(catalog: Seq<Row>, x: Row)
    requires
        redundant_rows(duplicate_groups(catalog)).contains(x),
    ensures
        exists|i: int|
            0 <= i < catalog.len() && (#[trigger] catalog[i]) == x && has_digest(
                catalog.take(i),
                x.sha256,
            ),
{
    let groups = duplicate_groups(catalog);
    lemma_redundant_membership(groups, x);
    let (g, k) = choose|g: int, k: int|
        0 <= g < groups.len() && 1 <= k < groups[g].len() && #[trigger] groups[g][k] == x;
    lemma_groups_are_shared_digests(catalog, catalog.len() as int, g);
    let m = choose|m: int|
        0 <= m < catalog.len() && groups[g] == with_digest(catalog, (#[trigger] catalog[m]).sha256);
    let sha256 = catalog[m].sha256;
    let p = digest_is(sha256);
    lemma_filter_source(catalog, p, k);
    let i = choose|i: int|
        0 <= i < catalog.len() && (#[trigger] catalog[i]) == catalog.filter(p)[k] && p(
            catalog[i],
        ) && catalog.take(i).filter(p).len() == k;
    let earlier = catalog.take(i).filter(p);
    catalog.take(i).lemma_filter_pred(p, 0);
    assert(earlier.contains(earlier[0]));
    catalog.take(i).lemma_filter_contains_rev(p, earlier[0]);
    let h = choose|h: int| 0 <= h < catalog.take(i).len() && catalog.take(i)[h] == earlier[0];
    assert(catalog.take(i)[h].sha256 == x.sha256);
}

/// In a catalog without a path twice, the redundant rows are exactly the rows
/// that are not the first of their digest.
proof fn lemma_redundant_iff_later(catalog: Seq<Row>, i: int)
    requires
        distinct_paths(catalog),
        0 <= i < catalog.len(),
    ensures
        redundant_rows(duplicate_groups(catalog)).contains(catalog[i]) <==> has_digest(
            catalog.take(i),
            catalog[i].sha256,
        ),
{
    let removed = redundant_rows(duplicate_groups(catalog));
    let row = catalog[i];
    if has_digest(catalog.take(i), row.sha256) {
        lemma_later_rows_are_redundant(catalog, i);
    } else if removed.contains(row) {
        lemma_redundant_rows_are_later(catalog, row);
        let j = choose|j: int|
            0 <= j < catalog.len() && (#[trigger] catalog[j]) == row && has_digest(
                catalog.take(j),
                row.sha256,
            );
        if j < i {
            assert(catalog[j].path == catalog[i].path);
        }
        if j > i {
            assert(catalog[i].path == catalog[j].path);
        }
    }
}

/// What the next row adds to the rows that are left: nothing if it is not the
/// first of its digest, and itself if it is.
proof fn lemma_pruned_step(catalog: Seq<Row>, n: int)
    requires
        distinct_paths(catalog),
        0 < n <= catalog.len(),
    ensures
        ({
            let removed = redundant_rows(duplicate_groups(catalog));
            without(catalog.take(n), removed) == if has_digest(
                catalog.take(n - 1),
                catalog[n - 1].sha256,
            ) {
                without(catalog.take(n - 1), removed)
            } else {
                without(catalog.take(n - 1), removed).push(catalog[n - 1])
            }
        }),
{
    let removed = redundant_rows(duplicate_groups(catalog));
    let row = catalog[n - 1];
    lemma_redundant_iff_later(catalog, n - 1);
    assert(catalog.take(n) =~= catalog.take(n - 1).push(row));
    catalog.take(n - 1).lemma_filter_push(row, not_among(removed));
}

/// What is left of the first `n` catalog rows once the redundant rows are
/// gone: rows of different digests, among them the first row of every digest.
proof fn lemma_pruned_prefix(catalog: Seq<Row>, n: int)
    requires
        distinct_paths(catalog),
        0 <= n <= catalog.len(),
    ensures
        ({
            let kept = without(catalog.take(n), redundant_rows(duplicate_groups(catalog)));
            &&& distinct_digests(kept)
            &&& forall|k: int|
                0 <= k < kept.len() ==> has_digest(catalog.take(n), (#[trigger] kept[k]).sha256)
            &&& forall|i: int|
                0 <= i < n && #[trigger] first_of_digest(catalog, i) ==> kept.contains(catalog[i])
        }),
    decreases n,
{
    let removed = redundant_rows(duplicate_groups(catalog));
    let kept = without(catalog.take(n), removed);
    if n == 0 {
        reveal(Seq::filter);
        assert(kept.len() == 0);
    } else {
        let row = catalog[n - 1];
        let before = without(catalog.take(n - 1), removed);
        let first = !has_digest(catalog.take(n - 1), row.sha256);
        lemma_pruned_prefix(catalog, n - 1);
        lemma_pruned_step(catalog, n);
        assert(kept == if first { before.push(row) } else { before });
        assert forall|k: int| 0 <= k < kept.len() implies has_digest(
            catalog.take(n),
            (#[trigger] kept[k]).sha256,
        ) by {
            if k < before.len() {
                assert(kept[k] == before[k]);
                let h = choose|h: int|
                    0 <= h < catalog.take(n - 1).len() && (#[trigger] catalog.take(n - 1)[h]).sha256
                        == before[k].sha256;
                assert(catalog.take(n)[h].sha256 == kept[k].sha256);
            } else {
                assert(catalog.take(n)[n - 1].sha256 == kept[k].sha256);
            }
        }
        assert forall|i: int| 0 <= i < n && #[trigger] first_of_digest(catalog, i) implies kept.contains(
            catalog[i],
        ) by {
            if i < n - 1 {
                assert(before.contains(catalog[i]));
                let k = choose|k: int| 0 <= k < before.len() && before[k] == catalog[i];
                assert(kept[k] == catalog[i]);
            } else {
                assert(kept[kept.len() - 1] == catalog[i]);
            }
        }
        assert forall|a: int, b: int| 0 <= a < b < kept.len() implies (#[trigger] kept[a]).sha256
            != (#[trigger] kept[b]).sha256 by {
            if b < before.len() {
                assert(before[a].sha256 != before[b].sha256);
            } else {
                assert(kept[a] == before[a]);
                assert(has_digest(catalog.take(n - 1), before[a].sha256));
            }
        }
    }
}

/// Once the duplicates of a consistent catalog are cleared away, no two rows
/// share a digest, and the first row of every digest is still there.
pub proof fn lemma_pruned_catalog_has_no_duplicates(catalog: Seq<Row>)
    requires
        distinct_paths(catalog),
    ensures
        distinct_digests(without(catalog, redundant_rows(duplicate_groups(catalog)))),
        forall|i: int|
            0 <= i < catalog.len() && #[trigger] first_of_digest(catalog, i) ==> without(
                catalog,
                redundant_rows(duplicate_groups(catalog)),
            ).contains(catalog[i]),
{
    lemma_pruned_prefix(catalog, catalog.len() as int);
    assert(catalog.take(catalog.len() as int) =~= catalog);
}

} // verus!
