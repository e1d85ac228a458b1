//! A file as the catalog knows it.
use vstd::prelude::*;
use vstd::string::*;

use crate::database::model::Row;
use crate::error::Error;

verus! {

/// A file found on disk: its content digest and where it was seen.
#[derive(Debug, PartialEq, Eq)]
pub struct CatalogEntry {
    pub sha256: String,
    pub path: String,
}

impl View for CatalogEntry {
    type V = Row;

    open spec fn view(&self) -> Row {
        Row { sha256: self.sha256@, path: self.path@ }
    }
}

impl Clone for CatalogEntry {
    fn clone(&self) -> (r: Self)
        ensures
            r == *self,
    {
        CatalogEntry { sha256: self.sha256.clone(), path: self.path.clone() }
    }
}

impl CatalogEntry {
    pub fn new(sha256: String, path: String) -> (r: Self)
        ensures
            r.sha256 == sha256,
            r.path == path,
    {
        Self { sha256, path }
    }

    pub fn sha256(&self) -> (r: &str)
        ensures
            r@ == self.sha256@,
    {
        self.sha256.as_str()
    }

    pub fn path(&self) -> (r: &str)
        ensures
            r@ == self.path@,
    {
        self.path.as_str()
    }

    /// Whether both entries stand for the same row.
    pub fn same_row(&self, other: &CatalogEntry) -> (r: bool)
        ensures
            r == (self@ == other@),
    {
        self.sha256 == other.sha256 && self.path == other.path
    }

    /// The catalog entry of the file at `path_buf`: `digest` computes the
    /// digest of the file, and `canonical` then gives its absolute path without
    /// links. The entry is made only where both succeed.
    pub fn try_from<H, C>(path_buf: &str, digest: &H, canonical: &C) -> (r: Result<
        CatalogEntry,
        Error,
    >) where H: Fn(&str) -> Result<String, Error>, C: Fn(&str) -> Result<String, Error>
        requires
            forall|p: &str| call_requires(*digest, (p,)),
            forall|p: &str| call_requires(*canonical, (p,)),
        ensures
            fingerprinted(*digest, *canonical, path_buf@, r),
    {
        let hashed = digest(path_buf);
        assert(hashing(*digest, path_buf@, hashed));
        let sha256 = match hashed {
            Ok(sha256) => sha256,
            Err(e) => {
                return Err(e);
            },
        };
        let resolved = canonical(path_buf);
        assert(hashing(*canonical, path_buf@, resolved));
        match resolved {
            Ok(path) => Ok(Self::new(sha256, path)),
            Err(e) => Err(e),
        }
    }
}

/// Whether `f` can return `outcome` when it is asked about the file at `path`.
pub open spec fn hashing<H: Fn(&str) -> Result<String, Error>>(
    f: H,
    path: Seq<char>,
    outcome: Result<String, Error>,
) -> bool {
    exists|p: &str| p@ == path && #[trigger] call_ensures(f, (p,), outcome)
}

/// Whether `r` is the outcome of making the catalog entry of the file at
/// `path`: the failure of `digest`, or else the failure of `canonical`, or else
/// the entry with the digest and the path that the two gave.
pub open spec fn fingerprinted<
    H: Fn(&str) -> Result<String, Error>,
    C: Fn(&str) -> Result<String, Error>,
>(digest: H, canonical: C, path: Seq<char>, r: Result<CatalogEntry, Error>) -> bool {
    exists|hashed: Result<String, Error>| #[trigger]
        hashing(digest, path, hashed) && match hashed {
            Err(e) => r == Err::<CatalogEntry, Error>(e),
            Ok(sha256) => exists|resolved: Result<String, Error>| #[trigger]
                hashing(canonical, path, resolved) && match resolved {
                    Err(e) => r == Err::<CatalogEntry, Error>(e),
                    Ok(absolute) => r == Ok::<CatalogEntry, Error>(
                        CatalogEntry { sha256, path: absolute },
                    ),
                },
        }
}

} // verus!
