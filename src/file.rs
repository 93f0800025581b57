//! Leaf entries of the tree and the metadata that every entry carries.
use vstd::prelude::*;
use vstd::string::*;

verus! {

/// A point in local time, broken down into calendar fields.
#[derive(Debug, Clone, Copy, PartialEq, Eq, Structural)]
pub struct Timestamp {
    pub year: i32,
    pub month: u32,
    pub day: u32,
    pub hour: u32,
    pub minute: u32,
    pub second: u32,
}

/// Timestamps of an entry, each absent where the platform does not report it,
/// and whether the entry may be written.
#[derive(Debug, Clone, Copy, PartialEq, Eq, Structural)]
pub struct FileMetadata {
    pub created: Option<Timestamp>,
    pub modified: Option<Timestamp>,
    pub accessed: Option<Timestamp>,
    pub writable: bool,
}

/// The calendar fields of a timestamp lie in their ranges.
pub open spec fn is_valid_timestamp(t: Timestamp) -> bool {
    &&& 1 <= t.month <= 12
    &&& 1 <= t.day <= 31
    &&& t.hour < 24
    &&& t.minute < 60
    &&& t.second < 60
}

/// `secs` and `nanos` name an instant that chrono can represent: well inside
/// its years -262143 to 262142, with the nanoseconds below one second.
pub open spec fn is_representable_instant(secs: i64, nanos: u32) -> bool {
    nanos < 1_000_000_000 && -8_000_000_000_000 <= secs <= 8_000_000_000_000
}

/// Relies on chrono's `TimeZone::timestamp_opt` for `Local`, read back
/// through `Datelike` and `Timelike`: the local calendar time of the instant
/// `secs` seconds and `nanos` nanoseconds after the Unix epoch. It depends on
/// the machine's time zone, so of the fields only the ranges that chrono
/// documents are stated. `timestamp_opt` gives a single local time for every
/// instant that `DateTime::from_timestamp` accepts, which covers every
/// representable instant.
#[verifier::external_body]
fn local_time_of(secs: i64, nanos: u32) -> (r: Option<Timestamp>)
    ensures
        r matches Some(t) ==> is_valid_timestamp(t),
        is_representable_instant(secs, nanos) ==> r is Some,
{
    match chrono::TimeZone::timestamp_opt(&chrono::Local, secs, nanos).single() {
        Some(d) => Some(Timestamp {
            year: chrono::Datelike::year(&d),
            month: chrono::Datelike::month(&d),
            day: chrono::Datelike::day(&d),
            hour: chrono::Timelike::hour(&d),
            minute: chrono::Timelike::minute(&d),
            second: chrono::Timelike::second(&d),
        }),
        None => None,
    }
}

/// The local time of an instant given as seconds and nanoseconds since the
/// Unix epoch; absent where the platform gave no such instant.
fn local_time(instant: Option<(i64, u32)>) -> (r: Option<Timestamp>)
    ensures
        instant is None ==> r is None,
        instant matches Some(i) && is_representable_instant(i.0, i.1) ==> r is Some,
        r matches Some(t) ==> is_valid_timestamp(t),
{
    match instant {
        Some((secs, nanos)) => local_time_of(secs, nanos),
        None => None,
    }
}

impl FileMetadata {
    /// Metadata with no timestamps, for an entry that may be written.
    pub fn new() -> (r: Self)
        ensures
            r.created is None,
            r.modified is None,
            r.accessed is None,
            r.writable,
    {
        FileMetadata { created: None, modified: None, accessed: None, writable: true }
    }

    pub fn build(
        created: Option<Timestamp>,
        modified: Option<Timestamp>,
        accessed: Option<Timestamp>,
        writable: bool,
    ) -> (r: Self)
        ensures
            r == (FileMetadata { created, modified, accessed, writable }),
    {
        FileMetadata { created, modified, accessed, writable }
    }

    /// Metadata from the instants the platform reported (seconds and
    /// nanoseconds since the Unix epoch), each turned into local time. An
    /// instant that was not reported stays absent; one that was reported and
    /// is representable is present.
    pub fn from_instants(
        created: Option<(i64, u32)>,
        modified: Option<(i64, u32)>,
        accessed: Option<(i64, u32)>,
        writable: bool,
    ) -> (r: Self)
        ensures
            created is None ==> r.created is None,
            modified is None ==> r.modified is None,
            accessed is None ==> r.accessed is None,
            created matches Some(i) && is_representable_instant(i.0, i.1) ==> r.created is Some,
            modified matches Some(i) && is_representable_instant(i.0, i.1) ==> r.modified is Some,
            accessed matches Some(i) && is_representable_instant(i.0, i.1) ==> r.accessed is Some,
            r.created matches Some(t) ==> is_valid_timestamp(t),
            r.modified matches Some(t) ==> is_valid_timestamp(t),
            r.accessed matches Some(t) ==> is_valid_timestamp(t),
            r.writable == writable,
    {
        FileMetadata {
            created: local_time(created),
            modified: local_time(modified),
            accessed: local_time(accessed),
            writable,
        }
    }

    pub fn get_created(&self) -> (r: Option<Timestamp>)
        ensures
            r == self.created,
    {
        self.created
    }

    pub fn get_modified(&self) -> (r: Option<Timestamp>)
        ensures
            r == self.modified,
    {
        self.modified
    }

    pub fn get_accessed(&self) -> (r: Option<Timestamp>)
        ensures
            r == self.accessed,
    {
        self.accessed
    }

    pub fn is_writable(&self) -> (r: bool)
        ensures
            r == self.writable,
    {
        self.writable
    }
}

/// What a file is in the model.
pub struct FileView {
    pub name: Seq<char>,
    pub metadata: FileMetadata,
}

/// A file of a directory listing.
#[derive(Debug, Clone)]
pub struct File {
    name: String,
    metadata: FileMetadata,
}

impl View for File {
    type V = FileView;

    closed spec fn view(&self) -> FileView {
        FileView { name: self.name@, metadata: self.metadata }
    }
}

impl File {
    pub fn build(name: &str, metadata: FileMetadata) -> (r: Self)
        ensures
            r@ == (FileView { name: name@, metadata }),
    {
        File { name: String::from_str(name), metadata }
    }

    pub fn get_name(&self) -> (r: &str)
        ensures
            r@ == self@.name,
    {
        self.name.as_str()
    }

    pub fn get_metadata(&self) -> (r: &FileMetadata)
        ensures
            *r == self@.metadata,
    {
        &self.metadata
    }
}

} // verus!
