//! The failures the library reports, and the text of each.
use vstd::prelude::*;
use vstd::string::*;

use crate::text::{decimal, decimal_string, join, joined, texts};

verus! {

/// One of the two tables of the metadata store.
#[derive(Clone, Copy, Debug, PartialEq, Eq, Structural)]
pub enum Table {
    Catalog,
    Library,
}

/// A failure of one of the library's operations.
#[derive(Debug, PartialEq, Eq)]
pub enum Error {
    /// A file could not be read, copied or created.
    Io { message: String },
    /// The metadata store could not be opened or brought up to date.
    Schema { message: String },
    /// A row was refused because the table already holds its key.
    Conflict { table: Table, sha256: String, path: String },
    /// The bytes that arrived at `to` are not those of `from`.
    CopyVerification { from: String, to: String },
    /// Something already stands where a file was to be copied.
    DestinationExists { path: String },
    /// A batch recorded another number of rows than it was given.
    PersistMismatch { inserted: usize, submitted: usize },
    /// Every candidate name in the library is taken.
    NoUsableName,
    /// A path has no file name, or no directory to keep with it.
    InvalidPath,
    /// A path has no file stem.
    MissingFileStem,
    /// A file name has no extension.
    MissingExtension,
    /// A stored digest is no longer that of the file.
    Integrity { table: Table, path: String },
    /// A picture holds no capture date.
    DateMissing,
    /// The capture date of a picture cannot be read as a date.
    DateUnparseable,
    /// A failure that concerns the file at `path`.
    ForEntry { path: String, message: String },
    /// The failures of a pass over all rows, in the order of the rows.
    Failures { messages: Vec<String> },
}

/// An `Error` as plain text and numbers.
pub enum Failure {
    Io { message: Seq<char> },
    Schema { message: Seq<char> },
    Conflict { table: Table, sha256: Seq<char>, path: Seq<char> },
    CopyVerification { from: Seq<char>, to: Seq<char> },
    DestinationExists { path: Seq<char> },
    PersistMismatch { inserted: nat, submitted: nat },
    NoUsableName,
    InvalidPath,
    MissingFileStem,
    MissingExtension,
    Integrity { table: Table, path: Seq<char> },
    DateMissing,
    DateUnparseable,
    ForEntry { path: Seq<char>, message: Seq<char> },
    Failures { messages: Seq<Seq<char>> },
}

impl Failure {
    /// The text that describes the failure.
    pub open spec fn message(self) -> Seq<char> {
        match self {
            Failure::Io { message } => message,
            Failure::Schema { message } => message,
            Failure::Conflict { table, sha256, path } => "Failed to insert ("@ + sha256 + ", "@
                + path + "): UNIQUE constraint failed: "@ + (match table {
                Table::Catalog => "catalog.path"@,
                Table::Library => "library.hash"@,
            }),
            Failure::CopyVerification { from, to } => from + " sha256 does not match copied "@
                + to + ". Aborting."@,
            Failure::DestinationExists { path } => path + " already exists."@,
            Failure::PersistMismatch { inserted, submitted } => "Recorded "@ + decimal(inserted)
                + " of "@ + decimal(submitted) + " entries. Nothing was kept."@,
            Failure::NoUsableName => "Can't find an unused file name in the library."@,
            Failure::InvalidPath => "Invalid File"@,
            Failure::MissingFileStem => "Expected a file stem"@,
            Failure::MissingExtension => "Expected a file extension"@,
            Failure::Integrity { table, path } => (match table {
                Table::Catalog => "Failed catalog check for "@,
                Table::Library => "Failed library check for "@,
            }) + path,
            Failure::DateMissing => "DateTimeOriginal tag not found"@,
            Failure::DateUnparseable => "Failed to parse DateTimeOriginal"@,
            Failure::ForEntry { path, message } => "For "@ + path + ": "@ + message,
            Failure::Failures { messages } => joined(messages, "\n"@),
        }
    }
}

impl View for Error {
    type V = Failure;

    open spec fn view(&self) -> Failure {
        match self {
            Error::Io { message } => Failure::Io { message: message@ },
            Error::Schema { message } => Failure::Schema { message: message@ },
            Error::Conflict { table, sha256, path } => Failure::Conflict {
                table: *table,
                sha256: sha256@,
                path: path@,
            },
            Error::CopyVerification { from, to } => Failure::CopyVerification {
                from: from@,
                to: to@,
            },
            Error::DestinationExists { path } => Failure::DestinationExists { path: path@ },
            Error::PersistMismatch { inserted, submitted } => Failure::PersistMismatch {
                inserted: *inserted as nat,
                submitted: *submitted as nat,
            },
            Error::NoUsableName => Failure::NoUsableName,
            Error::InvalidPath => Failure::InvalidPath,
            Error::MissingFileStem => Failure::MissingFileStem,
            Error::MissingExtension => Failure::MissingExtension,
            Error::Integrity { table, path } => Failure::Integrity { table: *table, path: path@ },
            Error::DateMissing => Failure::DateMissing,
            Error::DateUnparseable => Failure::DateUnparseable,
            Error::ForEntry { path, message } => Failure::ForEntry {
                path: path@,
                message: message@,
            },
            Error::Failures { messages } => Failure::Failures { messages: texts(messages@) },
        }
    }
}

impl Error {
    /// The text that describes the failure.
    pub fn to_string(&self) -> (r: String)
        ensures
            r@ == self@.message(),
    {
        match self {
            Error::Io { message } => message.clone(),
            Error::Schema { message } => message.clone(),
            Error::Conflict { table, sha256, path } => {
                let mut s = String::from_str("Failed to insert (");
                s.append(sha256.as_str());
                s.append(", ");
                s.append(path.as_str());
                s.append("): UNIQUE constraint failed: ");
                match table {
                    Table::Catalog => s.append("catalog.path"),
                    Table::Library => s.append("library.hash"),
                }
                s
            },
            Error::CopyVerification { from, to } => {
                let mut s = from.clone();
                s.append(" sha256 does not match copied ");
                s.append(to.as_str());
                s.append(". Aborting.");
                s
            },
            Error::DestinationExists { path } => {
                let mut s = path.clone();
                s.append(" already exists.");
                s
            },
            Error::PersistMismatch { inserted, submitted } => {
                let mut s = String::from_str("Recorded ");
                s.append(decimal_string(*inserted as u64).as_str());
                s.append(" of ");
                s.append(decimal_string(*submitted as u64).as_str());
                s.append(" entries. Nothing was kept.");
                s
            },
            Error::NoUsableName => String::from_str(
                "Can't find an unused file name in the library.",
            ),
            Error::InvalidPath => String::from_str("Invalid File"),
            Error::MissingFileStem => String::from_str("Expected a file stem"),
            Error::MissingExtension => String::from_str("Expected a file extension"),
            Error::Integrity { table, path } => {
                let mut s = match table {
                    Table::Catalog => String::from_str("Failed catalog check for "),
                    Table::Library => String::from_str("Failed library check for "),
                };
                s.append(path.as_str());
                s
            },
            Error::DateMissing => String::from_str("DateTimeOriginal tag not found"),
            Error::DateUnparseable => String::from_str("Failed to parse DateTimeOriginal"),
            Error::ForEntry { path, message } => {
                let mut s = String::from_str("For ");
                s.append(path.as_str());
                s.append(": ");
                s.append(message.as_str());
                s
            },
            Error::Failures { messages } => join(messages, "\n"),
        }
    }
}

} // verus!
