//! The metadata store: the catalog and the library, and the writes that keep
//! either whole.
use vstd::prelude::*;

use crate::database::catalog_entry::CatalogEntry;
use crate::database::library_entry::LibraryEntry;
use crate::database::model::{first_rows, has_digest, has_path, rows, Row, Tables};
use crate::error::{Error, Failure};
use crate::text::texts;

pub mod catalog;
pub mod catalog_entry;
pub mod common;
pub mod library;
pub mod library_entry;
pub mod model;
pub mod test_utils;

verus! {

/// An entry of one of the tables: it stands for a row, and hands out the two
/// texts of that row.
pub trait Entry: View<V = Row> + Sized {
    /// The digest of the row.
    fn digest(&self) -> (r: &String)
        ensures
            r@ == self@.sha256,
    ;

    /// The path of the row.
    fn location(&self) -> (r: &String)
        ensures
            r@ == self@.path,
    ;
}

impl Entry for CatalogEntry {
    fn digest(&self) -> (r: &String) {
        &self.sha256
    }

    fn location(&self) -> (r: &String) {
        &self.path
    }
}

impl Entry for LibraryEntry {
    fn digest(&self) -> (r: &String) {
        &self.sha256
    }

    fn location(&self) -> (r: &String) {
        &self.path
    }
}

/// Whether one of `entries` has the path `path`.
pub fn holds_path<T: Entry>(entries: &Vec<T>, path: &String) -> (r: bool)
    ensures
        r == has_path(rows(entries@), path@),
{
    let mut i: usize = 0;
    while i < entries.len()
        invariant
            i <= entries.len(),
            forall|j: int| 0 <= j < i ==> (#[trigger] rows(entries@)[j]).path != path@,
        decreases entries.len() - i,
    {
        if *entries[i].location() == *path {
            assert(rows(entries@)[i as int].path == path@);
            return true;
        }
        i += 1;
    }
    false
}

/// Whether one of the first `n` of `entries` has the digest `sha256`.
pub fn holds_digest_before<T: Entry>(entries: &Vec<T>, n: usize, sha256: &String) -> (r: bool)
    requires
        n <= entries.len(),
    ensures
        r == has_digest(rows(entries@).take(n as int), sha256@),
{
    let mut i: usize = 0;
    while i < n
        invariant
            i <= n <= entries.len(),
            forall|j: int|
                0 <= j < i ==> (#[trigger] rows(entries@).take(n as int)[j]).sha256 != sha256@,
        decreases n - i,
    {
        if *entries[i].digest() == *sha256 {
            assert(rows(entries@).take(n as int)[i as int].sha256 == sha256@);
            return true;
        }
        i += 1;
    }
    false
}

/// Whether one of `entries` has the digest `sha256`.
pub fn holds_digest<T: Entry>(entries: &Vec<T>, sha256: &String) -> (r: bool)
    ensures
        r == has_digest(rows(entries@), sha256@),
{
    assert(rows(entries@).take(entries.len() as int) =~= rows(entries@));
    holds_digest_before(entries, entries.len(), sha256)
}

/// Whether one of `entries` stands for the same row as `entry`.
pub fn holds_row<T: Entry>(entries: &Vec<T>, entry: &T) -> (r: bool)
    ensures
        r == rows(entries@).contains(entry@),
{
    let mut i: usize = 0;
    while i < entries.len()
        invariant
            i <= entries.len(),
            forall|j: int| 0 <= j < i ==> #[trigger] rows(entries@)[j] != entry@,
        decreases entries.len() - i,
    {
        if *entries[i].digest() == *entry.digest() && *entries[i].location() == *entry.location() {
            assert(rows(entries@)[i as int] == entry@);
            return true;
        }
        i += 1;
    }
    false
}

/// The metadata store. Each table keeps its rows in the order in which they
/// were inserted.
pub struct Store {
    pub(crate) catalog: Vec<CatalogEntry>,
    pub(crate) library: Vec<LibraryEntry>,
}

/// A state of the store that a batch can be taken back to.
pub struct Savepoint {
    pub(crate) catalog: usize,
    pub(crate) library: usize,
}

impl Savepoint {
    /// How many catalog rows the store held.
    pub open(crate) spec fn catalog_rows(&self) -> nat {
        self.catalog as nat
    }

    /// How many library rows the store held.
    pub open(crate) spec fn library_rows(&self) -> nat {
        self.library as nat
    }
}

impl Store {
    /// The two tables as rows of text.
    pub open(crate) spec fn view(&self) -> Tables {
        Tables { catalog: rows(self.catalog@), library: rows(self.library@) }
    }

    /// A path stands once in the catalog, a digest once in the library.
    pub open spec fn wf(&self) -> bool {
        self@.consistent()
    }

    /// A store with two empty tables.
    pub fn new() -> (r: Store)
        ensures
            r.wf(),
            r@.catalog == Seq::<Row>::empty(),
            r@.library == Seq::<Row>::empty(),
    {
        let r = Store { catalog: Vec::new(), library: Vec::new() };
        assert(r@.catalog =~= Seq::empty());
        assert(r@.library =~= Seq::empty());
        r
    }

    /// The catalog entries, in catalog order.
    pub fn catalog_entries(&self) -> (r: &Vec<CatalogEntry>)
        ensures
            rows(r@) == self@.catalog,
    {
        &self.catalog
    }

    /// The library entries, in library order.
    pub fn library_entries(&self) -> (r: &Vec<LibraryEntry>)
        ensures
            rows(r@) == self@.library,
    {
        &self.library
    }

    /// Marks the present state, for a later `rollback` or `settle`.
    pub fn savepoint(&self) -> (r: Savepoint)
        ensures
            r.catalog_rows() == self@.catalog.len(),
            r.library_rows() == self@.library.len(),
    {
        Savepoint { catalog: self.catalog.len(), library: self.library.len() }
    }

    /// Takes back every row that was inserted since `savepoint` was marked.
    pub fn rollback(&mut self, savepoint: Savepoint)
        ensures
            final(self)@.catalog == first_rows(old(self)@.catalog, savepoint.catalog_rows()),
            final(self)@.library == first_rows(old(self)@.library, savepoint.library_rows()),
            old(self).wf() ==> final(self).wf(),
    {
        self.catalog.truncate(savepoint.catalog);
        self.library.truncate(savepoint.library);
        assert(final(self)@.catalog =~= first_rows(old(self)@.catalog, savepoint.catalog_rows()));
        assert(final(self)@.library =~= first_rows(old(self)@.library, savepoint.library_rows()));
    }

    /// Ends a batch that was given `submitted` entries and recorded `inserted`
    /// rows since `savepoint`: the rows stay if the two numbers agree, and
    /// are all taken back if they do not.
    pub fn settle(&mut self, savepoint: Savepoint, inserted: usize, submitted: usize) -> (r: Result<
        usize,
        Error,
    >)
        ensures
            inserted == submitted ==> r == Ok::<usize, Error>(inserted) && final(self)@ == old(self)@,
            inserted != submitted ==> r is Err && r->Err_0@ == (Failure::PersistMismatch {
                inserted: inserted as nat,
                submitted: submitted as nat,
            }) && final(self)@.catalog == first_rows(old(self)@.catalog, savepoint.catalog_rows())
                && final(self)@.library == first_rows(
                old(self)@.library,
                savepoint.library_rows(),
            ),
            old(self).wf() ==> final(self).wf(),
    {
        if inserted == submitted {
            Ok(inserted)
        } else {
            self.rollback(savepoint);
            Err(Error::PersistMismatch { inserted, submitted })
        }
    }
}

/// The messages of the failures among `outcomes`, in their order.
pub open spec fn failure_messages(outcomes: Seq<Result<(), String>>) -> Seq<Seq<char>>
    decreases outcomes.len(),
{
    if outcomes.len() == 0 {
        Seq::empty()
    } else {
        let earlier = failure_messages(outcomes.drop_last());
        match outcomes.last() {
            Ok(_) => earlier,
            Err(message) => earlier.push(message@),
        }
    }
}

/// What a pass over all rows reports when the visits ended as `outcomes` say:
/// the number of rows where none failed, and all failures together otherwise.
pub open spec fn summary(outcomes: Seq<Result<(), String>>, r: Result<usize, Error>) -> bool {
    if failure_messages(outcomes).len() == 0 {
        r == Ok::<usize, Error>(outcomes.len() as usize)
    } else {
        r is Err && r->Err_0@ == (Failure::Failures { messages: failure_messages(outcomes) })
    }
}

/// Sums up the visits of a pass: the number of successes where all succeeded,
/// and otherwise one failure that holds every message in the order of the rows.
pub fn summarize(outcomes: &Vec<Result<(), String>>) -> (r: Result<usize, Error>)
    ensures
        summary(outcomes@, r),
{
    let mut count: usize = 0;
    let mut errors: Vec<String> = Vec::new();
    let mut i: usize = 0;
    proof {
        assert(outcomes@.take(0) =~= Seq::<Result<(), String>>::empty());
        assert(texts(errors@) =~= Seq::<Seq<char>>::empty());
    }
    while i < outcomes.len()
        invariant
            i <= outcomes.len(),
            texts(errors@) == failure_messages(outcomes@.take(i as int)),
            count + errors.len() == i,
        decreases outcomes.len() - i,
    {
        proof {
            let upto = outcomes@.take(i + 1);
            assert(upto.drop_last() =~= outcomes@.take(i as int));
            assert(upto.last() == outcomes@[i as int]);
        }
        match &outcomes[i] {
            Ok(_) => {
                count += 1;
            },
            Err(message) => {
                let ghost earlier = texts(errors@);
                errors.push(message.clone());
                assert(texts(errors@) =~= earlier.push(message@));
            },
        }
        i += 1;
    }
    assert(outcomes@.take(outcomes.len() as int) =~= outcomes@);
    if errors.len() == 0 {
        Ok(count)
    } else {
        Err(Error::Failures { messages: errors })
    }
}

/// Whether `f` can return `outcome` when it is handed an entry of the row `row`.
pub open spec fn visit<T: View<V = Row>, F: FnMut(T) -> Result<(), String>>(
    f: F,
    row: Row,
    outcome: Result<(), String>,
) -> bool {
    exists|entry: T| entry@ == row && #[trigger] call_ensures(f, (entry,), outcome)
}

/// Whether `outcomes` can be what the visits of `f` to `rows` returned, row by row.
pub open spec fn visited<T: View<V = Row>, F: FnMut(T) -> Result<(), String>>(
    f: F,
    rows: Seq<Row>,
    outcomes: Seq<Result<(), String>>,
) -> bool {
    &&& outcomes.len() == rows.len()
    &&& forall|i: int| 0 <= i < rows.len() ==> #[trigger] visit::<T, F>(f, rows[i], outcomes[i])
}

/// Hands a copy of each of `entries` to `f`, in their order and whatever the
/// earlier visits returned, and sums up the visits as `summarize` does.
pub(crate) fn visit_all<T, F>(entries: &Vec<T>, mut f: F) -> (r: Result<usize, Error>) where
    T: Clone + View<V = Row>,
    F: FnMut(T) -> Result<(), String>,

    requires
        forall|entry: T| call_requires(f, (entry,)),
        forall|a: T, b: T| cloned(a, b) ==> a@ == b@,
    ensures
        exists|outcomes: Seq<Result<(), String>>|
            visited::<T, F>(f, rows(entries@), outcomes) && #[trigger] summary(outcomes, r),
{
    let ghost all = rows(entries@);
    let mut outcomes: Vec<Result<(), String>> = Vec::new();
    let mut i: usize = 0;
    let ghost f0 = f;
    while i < entries.len()
        invariant
            i <= entries.len(),
            f == f0,
            all == rows(entries@),
            forall|entry: T| call_requires(f, (entry,)),
            forall|a: T, b: T| cloned(a, b) ==> a@ == b@,
            visited::<T, F>(f, all.take(i as int), outcomes@),
        decreases entries.len() - i,
    {
        let entry = entries[i].clone();
        let ghost handed = entry;
        let ghost earlier = outcomes@;
        assert(cloned(entries[i as int], handed));
        let outcome = f(entry);
        outcomes.push(outcome);
        proof {
            let upto = all.take(i + 1);
            assert forall|j: int| 0 <= j < upto.len() implies #[trigger] visit::<T, F>(
                f,
                upto[j],
                outcomes@[j],
            ) by {
                if j < i {
                    assert(visit::<T, F>(f, all.take(i as int)[j], earlier[j]));
                } else {
                    assert(handed@ == upto[j]);
                    assert(call_ensures(f, (handed,), outcomes@[j]));
                }
            }
        }
        i += 1;
    }
    assert(all.take(entries.len() as int) =~= all);
    let r = summarize(&outcomes);
    assert(visited::<T, F>(f, all, outcomes@) && summary(outcomes@, r));
    r
}

} // verus!
