//! A file as the library knows it, and where a new one is to stand.
use vstd::prelude::*;
use vstd::string::*;

use chrono::Datelike;

use crate::database::catalog_entry::CatalogEntry;
use crate::database::model::Row;
use crate::error::{Error, Failure};
use crate::path::{extension, extension_of, file_stem, file_stem_of, join, joined};
use crate::text::{decimal, decimal_string, signed_decimal, signed_decimal_string};

verus! {

/// The one file that the library keeps for a content digest.
#[derive(Debug, PartialEq, Eq)]
pub struct LibraryEntry {
    pub sha256: String,
    pub path: String,
}

impl View for LibraryEntry {
    type V = Row;

    open spec fn view(&self) -> Row {
        Row { sha256: self.sha256@, path: self.path@ }
    }
}

impl Clone for LibraryEntry {
    fn clone(&self) -> (r: Self)
        ensures
            r == *self,
    {
        LibraryEntry { sha256: self.sha256.clone(), path: self.path.clone() }
    }
}

impl LibraryEntry {
    pub fn new(sha256: String, path: String) -> (r: Self)
        ensures
            r.sha256 == sha256,
            r.path == path,
    {
        Self { sha256, path }
    }

    pub fn sha256(&self) -> (r: &str)
        ensures
            r@ == self.sha256@,
    {
        self.sha256.as_str()
    }

    pub fn path(&self) -> (r: &str)
        ensures
            r@ == self.path@,
    {
        self.path.as_str()
    }

    /// Whether both entries stand for the same row.
    pub fn same_row(&self, other: &LibraryEntry) -> (r: bool)
        ensures
            r == (self@ == other@),
    {
        self.sha256 == other.sha256 && self.path == other.path
    }

    /// The library entry that `catalog_entry` is to become: the same digest, at
    /// a free path under the directory of its capture date. `datetime_original`
    /// is the text of the picture's original date and time, where it has one,
    /// and `occupied` says whether something stands at a path. A failure to
    /// find the capture date names the catalog entry's path.
    pub fn try_from<F>(
        catalog_entry: &CatalogEntry,
        datetime_original: Option<&str>,
        occupied: &F,
    ) -> (r: Result<LibraryEntry, Error>) where F: Fn(&str) -> bool
        requires
            forall|asked: &str| call_requires(*occupied, (asked,)),
        ensures
            planned(*occupied, catalog_entry@, text_of(datetime_original), r),
    {
        let original_date = match original_date(datetime_original) {
            Ok(date) => date,
            Err(e) => {
                return Err(
                    Error::ForEntry { path: catalog_entry.path.clone(), message: e.to_string() },
                );
            },
        };
        match find_unused_library_path(catalog_entry.path.as_str(), original_date, occupied) {
            Ok(path) => Ok(LibraryEntry::new(catalog_entry.sha256.clone(), path)),
            Err(e) => Err(e),
        }
    }
}

/// Whether `r` is the outcome of planning the library entry for the catalog
/// row `row` of a picture whose date text is `field`: without a capture date it
/// fails and names the path of the row; with one it keeps the digest and
/// stands where `library_path` says.
pub open spec fn planned<F: Fn(&str) -> bool>(
    occupied: F,
    row: Row,
    field: Option<Seq<char>>,
    r: Result<LibraryEntry, Error>,
) -> bool {
    match capture_date_of(field) {
        Err(failure) => r is Err && r->Err_0@ == (Failure::ForEntry {
            path: row.path,
            message: failure.message(),
        }),
        Ok(date) => match r {
            Ok(entry) => entry.sha256@ == row.sha256 && library_path(
                occupied,
                row.path,
                date,
                Ok(entry.path),
            ),
            Err(e) => library_path(occupied, row.path, date, Err(e)),
        },
    }
}

/// A day of the calendar.
#[derive(Clone, Copy, Debug, PartialEq, Eq, Structural)]
pub struct Date {
    pub year: i32,
    pub month: u32,
    pub day: u32,
}

/// How a picture writes the moment it was taken.
pub const DATE_FORMAT: &'static str = "%Y-%m-%d %H:%M:%S";

/// The highest number that is tried as a suffix of a file name.
pub const LAST_SUFFIX: u64 = 2147483647;

/// The failure to read a date, as `chrono` reports it.
#[verifier::external_type_specification]
#[verifier::external_body]
pub struct ExParseError(chrono::ParseError);

/// Year, month and day of the date that `chrono` reads from `text` under
/// `format`, where it reads one.
pub uninterp spec fn parsed_date(text: Seq<char>, format: Seq<char>) -> Option<(i32, u32, u32)>;

/// `chrono::NaiveDate::parse_from_str`, with the date it gives taken apart
/// into year, month and day. Trusted: what it reads depends on `text` and
/// `format` alone, so that it is the date `parsed_date` names, and it fails
/// exactly where `parsed_date` names none.
#[verifier::external_body]
fn parse_date(text: &str, format: &str) -> (r: Result<(i32, u32, u32), chrono::ParseError>)
    ensures
        match r {
            Ok(date) => parsed_date(text@, format@) == Some(date),
            Err(_) => parsed_date(text@, format@) is None,
        },
{
    match chrono::NaiveDate::parse_from_str(text, format) {
        Ok(date) => Ok((date.year(), date.month(), date.day())),
        Err(e) => Err(e),
    }
}

/// The capture date that stands for what was read of a picture's date text.
pub open spec fn captured(parsed: Option<(i32, u32, u32)>) -> Result<Date, Failure> {
    match parsed {
        Some((year, month, day)) => Ok(Date { year, month, day }),
        None => Err(Failure::DateUnparseable),
    }
}

/// The capture date of a picture whose date text is `field`.
pub open spec fn capture_date_of(field: Option<Seq<char>>) -> Result<Date, Failure> {
    match field {
        Some(text) => captured(parsed_date(text, DATE_FORMAT@)),
        None => Err(Failure::DateMissing),
    }
}

/// Turns what `chrono` read into a capture date: the date where it read one,
/// and `DateUnparseable` where it did not.
pub fn capture_date(parsed: Result<(i32, u32, u32), chrono::ParseError>) -> (r: Result<
    Date,
    Error,
>)
    ensures
        match parsed {
            Ok(date) => r == Ok::<Date, Error>((Date { year: date.0, month: date.1, day: date.2 })),
            Err(_) => r == Err::<Date, Error>(Error::DateUnparseable),
        },
{
    match parsed {
        Ok(date) => Ok(Date { year: date.0, month: date.1, day: date.2 }),
        Err(_) => Err(Error::DateUnparseable),
    }
}

/// The characters of a text that may be missing.
pub open spec fn text_of(field: Option<&str>) -> Option<Seq<char>> {
    match field {
        Some(text) => Some(text@),
        None => None,
    }
}

/// The capture date of a picture, from the text of its original date and time
/// where it has one. A picture without that text gives `DateMissing`, a text
/// that is no date and time gives `DateUnparseable`.
pub fn original_date(datetime_original: Option<&str>) -> (r: Result<Date, Error>)
    ensures
        match r {
            Ok(date) => capture_date_of(text_of(datetime_original)) == Ok::<
                Date,
                Failure,
            >(date),
            Err(e) => capture_date_of(text_of(datetime_original)) == Err::<
                Date,
                Failure,
            >(e@),
        },
{
    match datetime_original {
        Some(text) => capture_date(parse_date(text, DATE_FORMAT)),
        None => Err(Error::DateMissing),
    }
}

/// The directory of a day: year, month and day in decimal, without padding.
pub open spec fn date_path(date: Date) -> Seq<char> {
    joined(
        joined(signed_decimal(date.year as int), decimal(date.month as nat)),
        decimal(date.day as nat),
    )
}

/// The directory in which the files of `date` stand.
pub fn date_based_path(date: Date) -> (r: String)
    ensures
        r@ == date_path(date),
{
    let year = signed_decimal_string(date.year as i64);
    let month = decimal_string(date.month as u64);
    let day = decimal_string(date.day as u64);
    let year_and_month = join(year.as_str(), month.as_str());
    join(year_and_month.as_str(), day.as_str())
}

/// `stem` with `suffix` behind it.
pub fn build_file_name(stem: &str, suffix: &str) -> (r: String)
    ensures
        r@ == stem@ + suffix@,
{
    let mut name = String::from_str(stem);
    name.append(suffix);
    name
}

/// The `attempt`-th name for a file with this stem and extension: the plain
/// name first, then the stem with `_1`, `_2` and so on behind it.
pub open spec fn candidate_name(stem: Seq<char>, extension: Seq<char>, attempt: nat) -> Seq<char> {
    if attempt == 0 {
        stem + seq!['.'] + extension
    } else {
        stem + seq!['_'] + decimal(attempt) + seq!['.'] + extension
    }
}

/// The `attempt`-th path for such a file in the directory `base`.
pub open spec fn candidate_path(
    base: Seq<char>,
    stem: Seq<char>,
    extension: Seq<char>,
    attempt: nat,
) -> Seq<char> {
    joined(base, candidate_name(stem, extension, attempt))
}

/// Writes the `attempt`-th path.
pub fn candidate(base_path: &str, file_stem: &str, extension: &str, attempt: u64) -> (r: String)
    ensures
        r@ == candidate_path(base_path@, file_stem@, extension@, attempt as nat),
{
    proof {
        reveal_strlit("_");
        reveal_strlit(".");
    }
    let mut name = if attempt == 0 {
        String::from_str(file_stem)
    } else {
        let mut suffix = String::from_str("_");
        suffix.append(decimal_string(attempt).as_str());
        build_file_name(file_stem, suffix.as_str())
    };
    name.append(".");
    name.append(extension);
    assert(name@ =~= candidate_name(file_stem@, extension@, attempt as nat));
    join(base_path, name.as_str())
}

/// Whether `occupied` can answer `answer` when it is asked about the path `path`.
pub open spec fn probe<F: Fn(&str) -> bool>(occupied: F, path: Seq<char>, answer: bool) -> bool {
    exists|asked: &str| asked@ == path && #[trigger] call_ensures(occupied, (asked,), answer)
}

/// Whether `r` is the outcome of looking for a free name: the first candidate
/// that `occupied` denied, after it confirmed every candidate before that one; or
/// `NoUsableName`, after it confirmed every candidate up to the last suffix.
pub open spec fn placed<F: Fn(&str) -> bool>(
    occupied: F,
    base: Seq<char>,
    stem: Seq<char>,
    extension: Seq<char>,
    r: Result<String, Error>,
) -> bool {
    match r {
        Ok(path) => exists|attempt: nat|
            attempt <= LAST_SUFFIX && path@ == #[trigger] candidate_path(
                base,
                stem,
                extension,
                attempt,
            ) && probe(occupied, path@, false) && forall|earlier: nat|
                earlier < attempt ==> probe(
                    occupied,
                    #[trigger] candidate_path(base, stem, extension, earlier),
                    true,
                ),
        Err(e) => e@ == Failure::NoUsableName && forall|attempt: nat|
            attempt <= LAST_SUFFIX ==> probe(
                occupied,
                #[trigger] candidate_path(base, stem, extension, attempt),
                true,
            ),
    }
}

/// Finds a name in `base_path` that `occupied` does not hold: the plain name, or
/// else the first of the numbered ones.
pub fn unused_filename<F>(base_path: &str, file_stem: &str, extension: &str, occupied: &F) -> (r:
    Result<String, Error>) where F: Fn(&str) -> bool
    requires
        forall|path: &str| call_requires(*occupied, (path,)),
    ensures
        placed(*occupied, base_path@, file_stem@, extension@, r),
{
    let mut attempt: u64 = 0;
    while attempt <= LAST_SUFFIX
        invariant
            attempt <= LAST_SUFFIX + 1,
            forall|path: &str| call_requires(*occupied, (path,)),
            forall|earlier: nat|
                earlier < attempt ==> probe(
                    *occupied,
                    #[trigger] candidate_path(base_path@, file_stem@, extension@, earlier),
                    true,
                ),
        decreases LAST_SUFFIX + 1 - attempt,
    {
        let path = candidate(base_path, file_stem, extension, attempt);
        let taken = occupied(path.as_str());
        assert(probe(*occupied, path@, taken));
        if !taken {
            assert(path@ == candidate_path(base_path@, file_stem@, extension@, attempt as nat));
            return Ok(path);
        }
        attempt += 1;
    }
    Err(Error::NoUsableName)
}

/// Whether `r` is the outcome of placing the file at `path` under the
/// directory of `date`: without a stem or an extension it fails, and with both
/// it is what the search for a free name gives.
pub open spec fn library_path<F: Fn(&str) -> bool>(
    occupied: F,
    path: Seq<char>,
    date: Date,
    r: Result<String, Error>,
) -> bool {
    match (file_stem(path), extension(path)) {
        (None, _) => r is Err && r->Err_0@ == Failure::MissingFileStem,
        (Some(_), None) => r is Err && r->Err_0@ == Failure::MissingExtension,
        (Some(stem), Some(ext)) => placed(occupied, date_path(date), stem, ext, r),
    }
}

/// Where in the library the file at `path` is to stand: in the directory of
/// its capture date, under its own stem and extension, numbered if need be.
pub fn find_unused_library_path<F>(path: &str, original_date: Date, occupied: &F) -> (r: Result<
    String,
    Error,
>) where F: Fn(&str) -> bool
    requires
        forall|asked: &str| call_requires(*occupied, (asked,)),
    ensures
        library_path(*occupied, path@, original_date, r),
{
    let file_stem = match file_stem_of(path) {
        Some(stem) => stem,
        None => {
            return Err(Error::MissingFileStem);
        },
    };
    let extension = match extension_of(path) {
        Some(extension) => extension,
        None => {
            return Err(Error::MissingExtension);
        },
    };
    let date_based_path = date_based_path(original_date);
    unused_filename(date_based_path.as_str(), file_stem.as_str(), extension.as_str(), occupied)
}

} // verus!
