use deck::identity::{content_hash, hashable, HASH_ALGORITHM, PAYLOAD_EXTRACTION_VERSION};
use deck::playlist::{hash_confirms, Description, Hints};
use deck::resolution::{first_request, located, next_request, ResolveAction, ResolveStage, Screened};
use std::collections::BTreeMap;

fn wav(payload: &[u8]) -> Vec<u8> {
    let mut f = Vec::new();
    f.extend_from_slice(b"RIFF");
    f.extend_from_slice(&(36u32 + payload.len() as u32).to_le_bytes());
    f.extend_from_slice(b"WAVE");
    f.extend_from_slice(b"fmt ");
    f.extend_from_slice(&16u32.to_le_bytes());
    f.extend_from_slice(&1u16.to_le_bytes());
    f.extend_from_slice(&1u16.to_le_bytes());
    f.extend_from_slice(&44100u32.to_le_bytes());
    f.extend_from_slice(&88200u32.to_le_bytes());
    f.extend_from_slice(&2u16.to_le_bytes());
    f.extend_from_slice(&16u16.to_le_bytes());
    f.extend_from_slice(b"data");
    f.extend_from_slice(&(payload.len() as u32).to_le_bytes());
    f.extend_from_slice(payload);
    f
}

fn desc(artist: &str, title: &str) -> Description {
    Description { artist: artist.into(), title: title.into(), album: String::new(), year: String::new() }
}

/// A test entry: its identity, duration, description and hints.
struct TestEntry {
    algorithm: String,
    version: u32,
    hash: String,
    duration: f64,
    description: Description,
    hints: Hints,
}

fn entry_for(bytes: &[u8], duration: f64, size: u64, rel: &str, description: Description) -> TestEntry {
    TestEntry {
        algorithm: HASH_ALGORITHM.to_string(),
        version: PAYLOAD_EXTRACTION_VERSION,
        hash: content_hash(bytes).unwrap(),
        duration,
        description,
        hints: Hints { relative_path: rel.to_string(), file_size_bytes: size },
    }
}

/// Files by path: bytes, duration, tags.
type FakeLibrary = BTreeMap<String, (Vec<u8>, f64, Description)>;

#[derive(Debug, PartialEq)]
enum Outcome {
    Found { path: String, relinked: Option<(String, u64)>, retagged: Option<(String, String)> },
    /// The descriptive fallback, offering these library files for ranking.
    NeedsConfirmation(Vec<String>),
    Unavailable,
}

fn within_tolerance(entry: &TestEntry, duration: f64, size: u64) -> bool {
    let want = entry.hints.file_size_bytes as f64;
    let size_ok = want == 0.0 || (size as f64 - want).abs() <= want * 0.01;
    within_duration(entry, duration) && size_ok
}

fn within_duration(entry: &TestEntry, duration: f64) -> bool {
    (duration - entry.duration).abs() <= 2.0
}

fn confirms(entry: &TestEntry, lib: &FakeLibrary, path: &str) -> bool {
    match lib.get(path) {
        Some((bytes, _, _)) => {
            hashable(bytes) && hash_confirms(&entry.algorithm, entry.version, &entry.hash, Some(bytes.as_slice()))
        }
        None => false,
    }
}

fn tags(lib: &FakeLibrary, path: &str) -> Option<Description> {
    lib.get(path).map(|(_, _, d)| Description {
        artist: d.artist.clone(),
        title: d.title.clone(),
        album: d.album.clone(),
        year: d.year.clone(),
    })
}

/// Drives the resolution requests against the fake library, performing
/// each read they ask for and counting the file reads.
fn resolve(entry: &TestEntry, dir: &str, lib: &FakeLibrary) -> (Outcome, usize) {
    let files: Vec<Screened> = lib
        .iter()
        .map(|(path, (bytes, duration, _))| Screened {
            path: path.clone(),
            size: bytes.len() as u64,
            admissible: within_tolerance(entry, *duration, bytes.len() as u64),
            near: within_duration(entry, *duration),
        })
        .collect();
    let mut reads = 0;
    let (mut stage, mut action) = first_request(dir, &entry.hints, &entry.algorithm, entry.version, &files);
    loop {
        match action {
            ResolveAction::Confirm(path) => {
                reads += 1;
                let ok = confirms(entry, lib, &path);
                let (s, a) = next_request(stage, ok, dir, &entry.hints, &files);
                stage = s;
                action = a;
            }
            ResolveAction::ReadTags(path) => {
                let l = located(stage, dir, &entry.hints, &files, &entry.description, tags(lib, &path));
                let relinked = l.new_hints.map(|h| (h.relative_path, h.file_size_bytes));
                let retagged = l.new_description.map(|d| (d.artist, d.title));
                return (Outcome::Found { path: l.path, relinked, retagged }, reads);
            }
            ResolveAction::Rank(near) => {
                let offered = near.iter().map(|&k| files[k].path.clone()).collect();
                return (Outcome::NeedsConfirmation(offered), reads);
            }
            ResolveAction::Unavailable => return (Outcome::Unavailable, reads),
        }
    }
}

#[test]
fn resolves_via_hint_when_file_present() {
    let bytes = wav(&[10, 20, 30]);
    let entry = entry_for(&bytes, 5.0, bytes.len() as u64, "song.wav", desc("A", "T"));
    let mut lib = FakeLibrary::new();
    lib.insert("/lib/song.wav".to_string(), (bytes, 5.0, desc("A", "T")));
    let (outcome, reads) = resolve(&entry, "/lib", &lib);
    assert_eq!(
        outcome,
        Outcome::Found { path: "/lib/song.wav".to_string(), relinked: None, retagged: None }
    );
    assert_eq!(reads, 1);
}

#[test]
fn relocates_via_library_search_and_rewrites_hints() {
    let bytes = wav(&[7, 7, 7, 7]);
    let size = bytes.len() as u64;
    let entry = entry_for(&bytes, 8.0, size, "old/moved.wav", desc("A", "T"));
    let mut lib = FakeLibrary::new();
    lib.insert("/lib/new/moved.wav".to_string(), (bytes, 8.0, desc("A", "T")));
    let (outcome, _) = resolve(&entry, "/lib", &lib);
    assert_eq!(
        outcome,
        Outcome::Found {
            path: "/lib/new/moved.wav".to_string(),
            relinked: Some(("new/moved.wav".to_string(), size)),
            retagged: None,
        }
    );
}

#[test]
fn refreshes_description_when_tags_differ() {
    let bytes = wav(&[3, 1, 4]);
    let entry = entry_for(&bytes, 2.0, bytes.len() as u64, "t.wav", desc("Old", "Name"));
    let mut lib = FakeLibrary::new();
    lib.insert("/lib/t.wav".to_string(), (bytes, 2.0, desc("New", "Name")));
    match resolve(&entry, "/lib", &lib).0 {
        Outcome::Found { retagged: Some(d), .. } => {
            assert_eq!(d, ("New".to_string(), "Name".to_string()));
        }
        other => panic!("expected refreshed description, got {other:?}"),
    }
}

#[test]
fn unavailable_when_nothing_matches() {
    let entry = entry_for(&wav(&[1]), 100.0, 999, "gone.wav", desc("Artist", "Song"));
    let lib = FakeLibrary::new();
    assert_eq!(resolve(&entry, "/lib", &lib), (Outcome::Unavailable, 1));
}

#[test]
fn unreproducible_version_is_unresolvable_by_hash() {
    let bytes = wav(&[5, 5, 5]);
    let mut entry = entry_for(&bytes, 4.0, bytes.len() as u64, "v.wav", desc("A", "T"));
    entry.version = 999;
    let mut lib = FakeLibrary::new();
    lib.insert("/lib/v.wav".to_string(), (bytes, 4.0, desc("A", "T")));
    // The file is right there, but the version blocks hash confirmation, so
    // it degrades to the descriptive fallback rather than a silent match,
    // without reading a file.
    assert_eq!(resolve(&entry, "/lib", &lib), (Outcome::NeedsConfirmation(vec!["/lib/v.wav".to_string()]), 0));
}

#[test]
fn search_reads_only_admissible_files_in_order_and_stops_at_the_first_match() {
    let bytes = wav(&[4, 4, 4, 4]);
    let size = bytes.len() as u64;
    let entry = entry_for(&bytes, 60.0, size, "gone.wav", desc("A", "T"));
    let mut lib = FakeLibrary::new();
    // Too long: never read.
    lib.insert("/lib/a.wav".to_string(), (wav(&[4, 4, 4, 5]), 90.0, desc("A", "T")));
    // Admissible but another recording: read, does not confirm.
    lib.insert("/lib/b.wav".to_string(), (wav(&[4, 4, 4, 6]), 60.5, desc("A", "T")));
    // The entry's file.
    lib.insert("/lib/c/x.wav".to_string(), (bytes.clone(), 60.0, desc("A", "T")));
    // A copy after it: never read.
    lib.insert("/lib/d.wav".to_string(), (bytes, 60.0, desc("A", "T")));
    let (outcome, reads) = resolve(&entry, "/lib/sets", &lib);
    assert_eq!(
        outcome,
        Outcome::Found {
            path: "/lib/c/x.wav".to_string(),
            relinked: Some(("../c/x.wav".to_string(), size)),
            retagged: None,
        }
    );
    // The hint, then b.wav, then c/x.wav.
    assert_eq!(reads, 3);
}

#[test]
fn next_request_moves_past_inadmissible_files() {
    let hints = Hints { relative_path: "x.wav".to_string(), file_size_bytes: 10 };
    let files = vec![
        Screened { path: "/l/a".to_string(), size: 1, admissible: false, near: false },
        Screened { path: "/l/b".to_string(), size: 2, admissible: true, near: true },
        Screened { path: "/l/c".to_string(), size: 3, admissible: false, near: true },
    ];
    let (stage, action) = first_request("/p", &hints, "blake3", PAYLOAD_EXTRACTION_VERSION, &files);
    assert_eq!(stage, ResolveStage::Hint);
    assert!(matches!(action, ResolveAction::Confirm(ref p) if p == "/p/x.wav"));
    let (stage, action) = next_request(stage, false, "/p", &hints, &files);
    assert_eq!(stage, ResolveStage::Search(1));
    assert!(matches!(action, ResolveAction::Confirm(ref p) if p == "/l/b"));
    let (_, action) = next_request(stage, false, "/p", &hints, &files);
    assert!(matches!(action, ResolveAction::Rank(ref v) if v == &vec![1usize, 2]));
    let (stage, action) = next_request(ResolveStage::Search(1), true, "/p", &hints, &files);
    assert!(matches!(action, ResolveAction::ReadTags(ref p) if p == "/l/b"));
    let l = located(stage, "/p", &hints, &files, &desc("A", "T"), None);
    assert_eq!(l.path, "/l/b");
    let h = l.new_hints.expect("moved hints");
    assert_eq!((h.relative_path.as_str(), h.file_size_bytes), ("../l/b", 2));
    assert!(l.new_description.is_none());
    // An unreproducible method asks for no read at all.
    let (_, action) = first_request("/p", &hints, "md5", PAYLOAD_EXTRACTION_VERSION, &files);
    assert!(matches!(action, ResolveAction::Rank(_)));
}

#[test]
fn a_new_entry_records_the_hash_tags_and_relative_hint() {
    let bytes = wav(&[9, 8, 7]);
    let parts = deck::playlist::entry_from_track("/lib/new/a.wav", "/lib/sets", &bytes, 77, desc("A", "T"))
        .expect("hashable");
    assert_eq!(parts.hash_algorithm, "blake3");
    assert_eq!(parts.payload_extraction_version, PAYLOAD_EXTRACTION_VERSION);
    assert_eq!(parts.content_hash, content_hash(&bytes).unwrap());
    assert_eq!(parts.hints.relative_path, "../new/a.wav");
    assert_eq!(parts.hints.file_size_bytes, 77);
    assert_eq!(parts.description.title, "T");
    assert!(deck::playlist::entry_from_track("/x", "/", b"not audio", 9, desc("", "")).is_err());
}
