//! Init: where a repository keeps its metadata store.
use vstd::prelude::*;
use vstd::string::*;

use crate::path::{join, joined};

verus! {

pub const INIT: &'static str = "init";

/// The directory of a repository that holds its metadata.
pub const REPOSITORY: &'static str = ".photo_works";

/// The file in that directory that holds the metadata store.
pub const DATABASE: &'static str = "db.db3";

/// The command that makes a repository.
pub struct Init;

impl Init {
    pub fn name(&self) -> (r: &'static str)
        ensures
            r@ == INIT@,
    {
        INIT
    }
}

/// The metadata directory of the repository under `parent_path`.
pub fn repository_path(parent_path: &str) -> (r: String)
    ensures
        r@ == joined(parent_path@, REPOSITORY@),
{
    join(parent_path, REPOSITORY)
}

/// The metadata store of the repository under `parent_path`.
pub fn database_path(parent_path: &str) -> (r: String)
    ensures
        r@ == joined(joined(parent_path@, REPOSITORY@), DATABASE@),
{
    let repository = repository_path(parent_path);
    join(repository.as_str(), DATABASE)
}

} // verus!
