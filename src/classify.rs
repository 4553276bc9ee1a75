//! Deciding which directory entries are candidate audio files.

use vstd::prelude::*;

verus! {

/// What `str::to_lowercase` makes of a sequence of characters.
pub uninterp spec fn lower_of(s: Seq<char>) -> Seq<char>;

/// Relies on `str::to_lowercase`: Unicode lower-case mapping, a function of
/// the characters alone; the empty string stays empty.
#[verifier::external_body]
fn lowercase(s: &str) -> (r: String)
    ensures
        r@ == lower_of(s@),
        s@.len() == 0 ==> r@.len() == 0,
{
    s.to_lowercase()
}

/// The allow-list of audio extensions, each with its leading dot.
pub open spec fn is_audio_extension(dotted: Seq<char>) -> bool {
    ||| dotted == ".mp3"@
    ||| dotted == ".flac"@
    ||| dotted == ".wav"@
    ||| dotted == ".ogg"@
    ||| dotted == ".m4a"@
    ||| dotted == ".aac"@
    ||| dotted == ".wma"@
}

/// An extension (without its dot) as it is compared with the allow-list.
pub open spec fn dotted(ext: Seq<char>) -> Seq<char> {
    seq!['.'] + ext
}

/// Whether an extension, already lower-cased, is on the allow-list. The match
/// is on the whole extension, never on a part of it.
pub fn is_allowed_lowered(lowered: &str) -> (r: bool)
    ensures
        r == is_audio_extension(dotted(lowered@)),
{
    let mut d: String = ".".to_owned();
    d.append(lowered);
    proof {
        reveal_strlit(".");
        assert(d@ == dotted(lowered@));
    }
    let list: [&str; 7] = [".mp3", ".flac", ".wav", ".ogg", ".m4a", ".aac", ".wma"];
    let mut i: usize = 0;
    while i < 7
        invariant
            0 <= i <= 7,
            d@ == dotted(lowered@),
            list@ == seq![".mp3", ".flac", ".wav", ".ogg", ".m4a", ".aac", ".wma"],
            forall|j: int| 0 <= j < i ==> d@ != list@[j]@,
        decreases 7 - i,
    {
        let entry: String = list[i].to_owned();
        if d == entry {
            return true;
        }
        i = i + 1;
    }
    false
}

/// Whether an extension (without its dot) names an audio file, compared
/// without regard to case.
pub fn has_audio_extension(ext: &str) -> (r: bool)
    ensures
        r == is_audio_extension(dotted(lower_of(ext@))),
{
    let lowered = lowercase(ext);
    is_allowed_lowered(lowered.as_str())
}

/// What a directory listing says an entry is.
#[derive(Clone, Copy, Debug, PartialEq, Eq, Structural)]
pub enum EntryKind {
    Directory,
    File,
    Other,
}

/// One entry of a directory listing: its full path, its kind, and the
/// extension of its file name (without the dot), if it has one.
#[derive(Debug)]
pub struct DirEntry {
    pub path: String,
    pub kind: EntryKind,
    pub extension: Option<String>,
}

/// A candidate is a regular file whose extension, lower-cased, is on the
/// allow-list. Directories and files without an extension are not.
pub open spec fn is_candidate(e: DirEntry) -> bool {
    &&& e.kind == EntryKind::File
    &&& e.extension is Some
    &&& is_audio_extension(dotted(lower_of(e.extension->0@)))
}

impl DirEntry {
    pub fn new(path: String, kind: EntryKind, extension: Option<String>) -> (r: DirEntry)
        ensures
            r.path == path,
            r.kind == kind,
            r.extension == extension,
    {
        DirEntry { path, kind, extension }
    }

    /// Whether this entry is a candidate audio file.
    pub fn is_candidate(&self) -> (r: bool)
        ensures
            r == is_candidate(*self),
    {
        match self.kind {
            EntryKind::File => match &self.extension {
                Some(ext) => has_audio_extension(ext.as_str()),
                None => false,
            },
            _ => false,
        }
    }
}

} // verus!
