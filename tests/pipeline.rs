use music_ingest::catalog::{page_offset, Catalog, PersistenceError, Track};
use music_ingest::classify::{has_audio_extension, is_allowed_lowered, DirEntry, EntryKind};
use music_ingest::extract::{normalize, tag_source, ExtractionError, ProbedFile, TagFields, TagSource, TrackRecord};
use music_ingest::scan::{validate_root, ScanError, ScanJob, DEFAULT_PROGRESS_INTERVAL};
use music_ingest::walker::Walker;

fn file(path: &str, ext: Option<&str>) -> DirEntry {
    DirEntry::new(path.to_string(), EntryKind::File, ext.map(|e| e.to_string()))
}

fn dir(path: &str) -> DirEntry {
    DirEntry::new(path.to_string(), EntryKind::Directory, None)
}

fn tags(title: Option<&str>, artist: Option<&str>, album: Option<&str>, genre: Option<&str>) -> TagFields {
    TagFields {
        title: title.map(|s| s.to_string()),
        artist: artist.map(|s| s.to_string()),
        album: album.map(|s| s.to_string()),
        genre: genre.map(|s| s.to_string()),
    }
}

fn record(path: &str) -> TrackRecord {
    TrackRecord {
        path: path.to_string(),
        title: "T".to_string(),
        artist: "A".to_string(),
        album: "B".to_string(),
        genre: "G".to_string(),
        length_seconds: Some(200),
    }
}

fn walk(listings: Vec<(&str, Vec<DirEntry>)>, root: Vec<DirEntry>) -> Vec<String> {
    let mut w = Walker::new();
    w.push_listing(root);
    let mut listings = listings;
    while let Some(d) = w.advance() {
        let pos = listings.iter().position(|(p, _)| *p == d).expect("listing asked for");
        let (_, entries) = listings.remove(pos);
        w.push_listing(entries);
    }
    w.into_candidates()
}

#[test]
fn extension_allow_list_is_case_insensitive() {
    for e in ["mp3", "MP3", "Flac", "wav", "OGG", "m4a", "aac", "WMA"] {
        assert!(has_audio_extension(e), "{e}");
    }
    for e in ["", "mp", "mp33", "txt", "flac.bak", ".mp3", "m4"] {
        assert!(!has_audio_extension(e), "{e}");
    }
}

#[test]
fn lowered_match_needs_lower_case() {
    assert!(is_allowed_lowered("flac"));
    assert!(!is_allowed_lowered("FLAC"));
    assert!(has_audio_extension("FLAC"));
}

#[test]
fn only_audio_files_are_candidates() {
    assert!(file("/m/a.mp3", Some("mp3")).is_candidate());
    assert!(!file("/m/a.txt", Some("txt")).is_candidate());
    assert!(!file("/m/noext", None).is_candidate());
    assert!(!dir("/m/x.mp3").is_candidate());
    assert!(!DirEntry::new("/m/l.mp3".to_string(), EntryKind::Other, Some("mp3".to_string())).is_candidate());
}

#[test]
fn walk_visits_depth_first_in_listing_order() {
    let found = walk(
        vec![
            ("/m/sub", vec![file("/m/sub/b.flac", Some("flac")), dir("/m/sub/deeper"), file("/m/sub/c.txt", Some("txt"))]),
            ("/m/sub/deeper", vec![file("/m/sub/deeper/d.OGG", Some("OGG"))]),
        ],
        vec![file("/m/a.mp3", Some("mp3")), dir("/m/sub"), file("/m/e.wma", Some("wma")), file("/m/cover.jpg", Some("jpg"))],
    );
    assert_eq!(found, vec!["/m/a.mp3", "/m/sub/b.flac", "/m/sub/deeper/d.OGG", "/m/e.wma"]);
}

#[test]
fn walk_skips_files_outside_allow_list() {
    let found = walk(vec![], vec![file("/m/notes.txt", Some("txt")), file("/m/x.mp3.bak", Some("bak")), file("/m/README", None)]);
    assert!(found.is_empty());
}

#[test]
fn walk_of_empty_root_finds_nothing() {
    let mut w = Walker::new();
    w.push_listing(vec![]);
    assert!(w.advance().is_none());
    assert!(w.into_candidates().is_empty());
}

#[test]
fn missing_genre_gets_placeholder() {
    let probed = ProbedFile {
        primary: Some(tags(Some("Song"), Some("Band"), Some("Record"), None)),
        first: None,
        duration_secs: Some(215),
    };
    let rec = normalize("/m/a.mp3".to_string(), probed);
    assert_eq!(rec.genre, "Unknown Genre");
    assert_eq!(rec.title, "Song");
    assert_eq!(rec.artist, "Band");
    assert_eq!(rec.album, "Record");
    assert_eq!(rec.length_seconds, Some(215));
    assert_eq!(rec.path, "/m/a.mp3");
}

#[test]
fn all_placeholders_for_empty_tag() {
    let rec = normalize(
        "/m/b.flac".to_string(),
        ProbedFile { primary: Some(tags(None, None, None, None)), first: None, duration_secs: None },
    );
    assert_eq!(rec.title, "Unknown Track");
    assert_eq!(rec.artist, "Unknown Artist");
    assert_eq!(rec.album, "Unknown Album");
    assert_eq!(rec.genre, "Unknown Genre");
    assert_eq!(rec.length_seconds, None);
}

#[test]
fn fallback_tag_used_without_primary() {
    let probed = ProbedFile { primary: None, first: Some(tags(Some("Other"), None, None, Some("Jazz"))), duration_secs: Some(3) };
    assert_eq!(tag_source(&probed), TagSource::Fallback);
    let rec = normalize("/m/c.ogg".to_string(), probed);
    assert_eq!(rec.title, "Other");
    assert_eq!(rec.genre, "Jazz");
}

#[test]
fn primary_tag_preferred() {
    let probed = ProbedFile {
        primary: Some(tags(Some("Primary"), None, None, None)),
        first: Some(tags(Some("First"), None, None, None)),
        duration_secs: Some(1),
    };
    assert_eq!(tag_source(&probed), TagSource::Primary);
    assert_eq!(normalize("/p".to_string(), probed).title, "Primary");
}

#[test]
fn no_tag_block_gets_all_placeholders() {
    let probed = ProbedFile { primary: None, first: None, duration_secs: Some(10) };
    assert_eq!(tag_source(&probed), TagSource::Absent);
    let rec = normalize("/m/d.wav".to_string(), probed);
    assert_eq!(rec.path, "/m/d.wav");
    assert_eq!(rec.title, "Unknown Track");
    assert_eq!(rec.artist, "Unknown Artist");
    assert_eq!(rec.album, "Unknown Album");
    assert_eq!(rec.genre, "Unknown Genre");
    assert_eq!(rec.length_seconds, Some(10));
}

#[test]
fn untagged_file_is_catalogued_in_scan() {
    let mut job = ScanJob::new(vec!["/m/untagged.mp3".to_string()]);
    let mut c = Catalog::new();
    let path = job.next_path().unwrap();
    let rec = normalize(path, ProbedFile { primary: None, first: None, duration_secs: Some(7) });
    let outcome = c.insert_or_ignore(rec).map(|_| ()).map_err(|e| e.message());
    job.record(outcome);
    assert_eq!(job.finish().unwrap(), "No errors occurred while reading the folder.\n");
    assert_eq!(c.count(), 1);
    assert_eq!(c.tracks()[0].genre, "Unknown Genre");
}

#[test]
fn huge_duration_is_capped() {
    let rec = normalize(
        "/m/long.wav".to_string(),
        ProbedFile { primary: Some(tags(None, None, None, None)), first: None, duration_secs: Some(5_000_000_000) },
    );
    assert_eq!(rec.length_seconds, Some(i32::MAX));
}

#[test]
fn extraction_error_messages() {
    assert_eq!(ExtractionError::UnreadableFile("gone".to_string()).message(), "Bad path provided! gone");
    assert_eq!(ExtractionError::UnsupportedOrCorruptFormat("bad frame".to_string()).message(), "Failed to read file! bad frame");
    assert_eq!(PersistenceError::Write("locked".to_string()).message(), "Error saving track: locked");
    assert_eq!(PersistenceError::Full.message(), "Error saving track: catalog is full");
    assert_eq!(ScanError::Traversal("denied".to_string()).message(), "Failed to read directory: denied");
    assert_eq!(ScanError::Validation.message(), "Not a directory");
}

#[test]
fn insert_or_ignore_skips_known_path() {
    let mut c = Catalog::new();
    assert!(matches!(c.insert_or_ignore(record("/m/a.mp3")), Ok(true)));
    assert!(matches!(c.insert_or_ignore(record("/m/b.mp3")), Ok(true)));
    assert!(matches!(c.insert_or_ignore(record("/m/a.mp3")), Ok(false)));
    assert_eq!(c.count(), 2);
    assert!(c.contains_path(&"/m/b.mp3".to_string()));
    assert!(!c.contains_path(&"/m/c.mp3".to_string()));
}

fn scan_into(catalog: &mut Catalog, files: &[(&str, bool)]) -> (Result<String, String>, Vec<usize>) {
    let mut job = ScanJob::new(files.iter().map(|(p, _)| p.to_string()).collect());
    let mut events = Vec::new();
    while let Some(path) = job.next_path() {
        let ok = files.iter().find(|(p, _)| *p == path).unwrap().1;
        let probed = if ok {
            Ok(ProbedFile { primary: Some(tags(Some("t"), None, None, None)), first: None, duration_secs: Some(60) })
        } else {
            Err(ExtractionError::UnsupportedOrCorruptFormat("corrupt".to_string()))
        };
        let outcome = match probed.map(|p| normalize(path.clone(), p)) {
            Ok(rec) => catalog.insert_or_ignore(rec).map(|_| ()).map_err(|e| e.message()),
            Err(e) => Err(e.message()),
        };
        if let Some(p) = job.record(outcome) {
            events.push(p.processed);
        }
    }
    (job.finish(), events)
}

#[test]
fn second_scan_adds_no_rows() {
    let files = [("/m/1.mp3", true), ("/m/2.mp3", true), ("/m/3.mp3", true), ("/m/4.flac", true)];
    let mut c = Catalog::new();
    let (r1, _) = scan_into(&mut c, &files);
    let after_first = c.count();
    let (r2, _) = scan_into(&mut c, &files);
    assert_eq!(after_first, 4);
    assert_eq!(c.count(), after_first);
    assert!(r1.is_ok() && r2.is_ok());
}

#[test]
fn one_corrupt_file_in_batch() {
    let files = [("/m/1.mp3", true), ("/m/2.mp3", true), ("/m/bad.mp3", false), ("/m/4.mp3", true), ("/m/5.mp3", true)];
    let mut c = Catalog::new();
    let (r, _) = scan_into(&mut c, &files);
    assert_eq!(r.unwrap_err(), "/m/bad.mp3: Failed to read file! corrupt\n");
    assert_eq!(c.count(), files.len() - 1);
    assert!(!c.contains_path(&"/m/bad.mp3".to_string()));
    let paths: Vec<&str> = c.tracks().iter().map(|t| t.path.as_str()).collect();
    assert_eq!(paths, vec!["/m/1.mp3", "/m/2.mp3", "/m/4.mp3", "/m/5.mp3"]);
}

#[test]
fn progress_in_large_batch_every_tenth_and_last() {
    let names: Vec<String> = (1..=250).map(|i| format!("/m/{i}.mp3")).collect();
    let mut job = ScanJob::new(names);
    let mut events = Vec::new();
    let mut percents = Vec::new();
    while job.next_path().is_some() {
        if let Some(p) = job.record(Ok(())) {
            assert_eq!(p.total, 250);
            events.push(p.processed);
            percents.push(p.percent);
        }
    }
    let expected: Vec<usize> = (1..=25).map(|k| k * 10).collect();
    assert_eq!(events, expected);
    assert_eq!(percents[0], 4);
    assert_eq!(*percents.last().unwrap(), 100);
    assert_eq!(job.finish().unwrap(), "No errors occurred while reading the folder.\n");
}

#[test]
fn progress_in_large_batch_ends_on_last_file() {
    let names: Vec<String> = (1..=105).map(|i| format!("/m/{i}.mp3")).collect();
    let mut job = ScanJob::with_interval(names, 50);
    let mut events = Vec::new();
    while job.next_path().is_some() {
        if let Some(p) = job.record(Ok(())) {
            events.push(p.processed);
        }
    }
    assert_eq!(events, vec![50, 100, 105]);
}

#[test]
fn progress_in_small_batch_on_every_file() {
    let names: Vec<String> = (1..=4).map(|i| format!("/m/{i}.mp3")).collect();
    let mut job = ScanJob::new(names);
    let mut events = Vec::new();
    while let Some(path) = job.next_path() {
        let p = job.record(Ok(())).expect("small batches report every file");
        assert_eq!(p.path, path);
        events.push((p.processed, p.percent));
    }
    assert_eq!(events, vec![(1, 25), (2, 50), (3, 75), (4, 100)]);
    assert_eq!(DEFAULT_PROGRESS_INTERVAL, 10);
}

#[test]
fn empty_folder_scan_succeeds_without_events() {
    let mut c = Catalog::new();
    let (r, events) = scan_into(&mut c, &[]);
    assert_eq!(r.unwrap(), "No errors occurred while reading the folder.\n");
    assert!(events.is_empty());
    assert_eq!(c.count(), 0);
    let job = ScanJob::new(vec![]);
    assert!(job.is_done());
    assert!(job.failures().is_empty());
    assert_eq!(job.total(), 0);
}

#[test]
fn digest_lists_each_failure_in_order() {
    let mut job = ScanJob::new(vec!["/a.mp3".to_string(), "/b.mp3".to_string(), "/c.mp3".to_string()]);
    job.record(Err("first".to_string()));
    job.record(Ok(()));
    job.record(Err("third".to_string()));
    assert_eq!(job.failures().len(), 2);
    assert_eq!(job.finish().unwrap_err(), "/a.mp3: first\n/c.mp3: third\n");
}

#[test]
fn root_must_be_directory() {
    assert!(matches!(validate_root(false), Err(ScanError::Validation)));
    assert!(validate_root(true).is_ok());
}

#[test]
fn page_offsets() {
    assert_eq!(page_offset(1, 20), Some(0));
    assert_eq!(page_offset(3, 20), Some(40));
    assert_eq!(page_offset(0, 20), None);
    assert_eq!(page_offset(u64::MAX, 2), None);
}

#[test]
fn track_rows_hold_plain_values() {
    let t = Track {
        id: 1,
        length: 200,
        title: "T".to_string(),
        artist: "A".to_string(),
        album: "B".to_string(),
        genre: "G".to_string(),
        path: "/m/a.mp3".to_string(),
    };
    assert_eq!(t.id, 1);
    assert_eq!(t.path, "/m/a.mp3");
}

#[test]
fn catalog_rows_get_ids_and_lengths() {
    let mut c = Catalog::new();
    let mut long = record("/m/long.wav");
    long.length_seconds = Some(100_000);
    let mut none = record("/m/none.wav");
    none.length_seconds = None;
    c.insert_or_ignore(record("/m/a.mp3")).unwrap();
    c.insert_or_ignore(long).unwrap();
    c.insert_or_ignore(none).unwrap();
    let rows = c.tracks();
    assert_eq!(rows.iter().map(|t| t.id).collect::<Vec<_>>(), vec![1, 2, 3]);
    assert_eq!(rows.iter().map(|t| t.length).collect::<Vec<_>>(), vec![200, 65535, 0]);
    assert_eq!(rows[0].title, "T");
    assert_eq!(rows[0].artist, "A");
    assert_eq!(rows[0].album, "B");
    assert_eq!(rows[0].genre, "G");
    assert_eq!(rows[2].path, "/m/none.wav");
}

#[test]
fn one_corrupt_file_keeps_earlier_rows() {
    let mut c = Catalog::new();
    c.insert_or_ignore(record("/old/x.mp3")).unwrap();
    let files = [("/m/1.mp3", true), ("/m/bad.mp3", false), ("/m/3.mp3", true)];
    let (r, _) = scan_into(&mut c, &files);
    assert_eq!(r.unwrap_err(), "/m/bad.mp3: Failed to read file! corrupt\n");
    let paths: Vec<&str> = c.tracks().iter().map(|t| t.path.as_str()).collect();
    assert_eq!(paths, vec!["/old/x.mp3", "/m/1.mp3", "/m/3.mp3"]);
}
