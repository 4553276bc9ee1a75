//! Turning what was read from an audio file's tags into a normalised record.

use vstd::prelude::*;
use vstd::string::StringExecFns;

verus! {

/// The four text fields of one tag block, each present or not.
#[derive(Debug)]
pub struct TagFields {
    pub title: Option<String>,
    pub artist: Option<String>,
    pub album: Option<String>,
    pub genre: Option<String>,
}

/// What probing an audio file yielded: its designated primary tag, the first
/// tag block it holds, and the container's duration in whole seconds.
#[derive(Debug)]
pub struct ProbedFile {
    pub primary: Option<TagFields>,
    pub first: Option<TagFields>,
    pub duration_secs: Option<u64>,
}

/// Which tag block the fields are read from. A file with no tag block at
/// all (`Absent`) is no failure: every field gets its placeholder.
#[derive(Clone, Copy, Debug, PartialEq, Eq, Structural)]
pub enum TagSource {
    Primary,
    Fallback,
    Absent,
}

/// Why a file could not be read, so that it yields no record.
#[derive(Debug)]
pub enum ExtractionError {
    /// The file could not be opened; the text is the cause.
    UnreadableFile(String),
    /// The file opened but its container could not be decoded.
    UnsupportedOrCorruptFormat(String),
}

/// A normalised catalog record: every text field is filled in.
#[derive(Debug)]
pub struct TrackRecord {
    pub path: String,
    pub title: String,
    pub artist: String,
    pub album: String,
    pub genre: String,
    pub length_seconds: Option<i32>,
}

pub open spec fn source_of(p: ProbedFile) -> TagSource {
    if p.primary is Some {
        TagSource::Primary
    } else if p.first is Some {
        TagSource::Fallback
    } else {
        TagSource::Absent
    }
}

/// The value of an optional field, or the placeholder where it is absent.
pub open spec fn or_placeholder(o: Option<String>, placeholder: Seq<char>) -> Seq<char> {
    match o {
        Some(s) => s@,
        None => placeholder,
    }
}

/// A duration in seconds as it is stored: capped at the largest `i32`.
pub open spec fn stored_seconds(secs: u64) -> i32 {
    if secs > i32::MAX as u64 {
        i32::MAX
    } else {
        secs as i32
    }
}

/// The record made for `path` from the tag block `t`.
pub open spec fn record_matches(r: TrackRecord, path: Seq<char>, t: TagFields, duration: Option<u64>) -> bool {
    &&& r.path@ == path
    &&& r.title@ == or_placeholder(t.title, "Unknown Track"@)
    &&& r.artist@ == or_placeholder(t.artist, "Unknown Artist"@)
    &&& r.album@ == or_placeholder(t.album, "Unknown Album"@)
    &&& r.genre@ == or_placeholder(t.genre, "Unknown Genre"@)
    &&& r.length_seconds == match duration {
        Some(s) => Some(stored_seconds(s)),
        None => None,
    }
}

/// Which tag block a probed file's fields are read from: the primary one,
/// else the first one present, else none.
pub fn tag_source(p: &ProbedFile) -> (r: TagSource)
    ensures
        r == source_of(*p),
{
    match (&p.primary, &p.first) {
        (Some(_), _) => TagSource::Primary,
        (None, Some(_)) => TagSource::Fallback,
        (None, None) => TagSource::Absent,
    }
}

fn field_or(o: Option<String>, placeholder: &str) -> (r: String)
    ensures
        r@ == or_placeholder(o, placeholder@),
{
    match o {
        Some(s) => s,
        None => placeholder.to_owned(),
    }
}

fn seconds_to_stored(secs: u64) -> (r: i32)
    ensures
        r == stored_seconds(secs),
{
    if secs > 2147483647u64 {
        2147483647i32
    } else {
        secs as i32
    }
}

/// A tag block with no fields.
pub open spec fn empty_tag() -> TagFields {
    TagFields { title: None, artist: None, album: None, genre: None }
}

/// Makes the record of `path` from what probing it yielded: the fields of the
/// primary tag, else of the first tag present, else of none. Each field the
/// chosen tag lacks, or all four where there is no tag block, gets its
/// placeholder ("Unknown Track", "Unknown Artist", "Unknown Album",
/// "Unknown Genre"). Missing tag data is never a failure.
pub fn normalize(path: String, probed: ProbedFile) -> (r: TrackRecord)
    ensures
        source_of(probed) == TagSource::Primary ==> record_matches(
            r,
            path@,
            probed.primary->0,
            probed.duration_secs,
        ),
        source_of(probed) == TagSource::Fallback ==> record_matches(
            r,
            path@,
            probed.first->0,
            probed.duration_secs,
        ),
        source_of(probed) == TagSource::Absent ==> record_matches(
            r,
            path@,
            empty_tag(),
            probed.duration_secs,
        ),
{
    let ProbedFile { primary, first, duration_secs } = probed;
    let tag = match primary {
        Some(t) => t,
        None => match first {
            Some(t) => t,
            None => TagFields { title: None, artist: None, album: None, genre: None },
        },
    };
    let length_seconds = match duration_secs {
        Some(s) => Some(seconds_to_stored(s)),
        None => None,
    };
    let TagFields { title, artist, album, genre } = tag;
    TrackRecord {
        path,
        title: field_or(title, "Unknown Track"),
        artist: field_or(artist, "Unknown Artist"),
        album: field_or(album, "Unknown Album"),
        genre: field_or(genre, "Unknown Genre"),
        length_seconds,
    }
}

impl ExtractionError {
    /// The line of text that stands for this error in a scan's digest.
    pub fn message(&self) -> (r: String)
        ensures
            r@ == extraction_message(*self),
    {
        match self {
            ExtractionError::UnreadableFile(cause) => {
                let mut m: String = "Bad path provided! ".to_owned();
                m.append(cause.as_str());
                m
            },
            ExtractionError::UnsupportedOrCorruptFormat(cause) => {
                let mut m: String = "Failed to read file! ".to_owned();
                m.append(cause.as_str());
                m
            },
        }
    }
}

pub open spec fn extraction_message(e: ExtractionError) -> Seq<char> {
    match e {
        ExtractionError::UnreadableFile(c) => "Bad path provided! "@ + c@,
        ExtractionError::UnsupportedOrCorruptFormat(c) => "Failed to read file! "@ + c@,
    }
}

} // verus!
