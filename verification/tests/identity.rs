use deck::identity::{content_hash, detect_format, hashable, payload_ranges, AudioFormat, IdentityError};

/// A minimal valid WAV around `audio`.
fn wav_with_payload(audio: &[u8]) -> Vec<u8> {
    let mut f = Vec::new();
    f.extend_from_slice(b"RIFF");
    f.extend_from_slice(&(36u32 + audio.len() as u32).to_le_bytes());
    f.extend_from_slice(b"WAVE");
    f.extend_from_slice(b"fmt ");
    f.extend_from_slice(&16u32.to_le_bytes());
    f.extend_from_slice(&1u16.to_le_bytes());
    f.extend_from_slice(&1u16.to_le_bytes());
    f.extend_from_slice(&44100u32.to_le_bytes());
    f.extend_from_slice(&88200u32.to_le_bytes());
    f.extend_from_slice(&2u16.to_le_bytes());
    f.extend_from_slice(&16u16.to_le_bytes());
    f.extend_from_slice(b"data");
    f.extend_from_slice(&(audio.len() as u32).to_le_bytes());
    f.extend_from_slice(audio);
    f
}

/// A minimal ID3v2.4 tag of `body` zero bytes.
fn id3v2(body: usize) -> Vec<u8> {
    let mut t = vec![b'I', b'D', b'3', 4, 0, 0];
    t.push(((body >> 21) & 0x7f) as u8);
    t.push(((body >> 14) & 0x7f) as u8);
    t.push(((body >> 7) & 0x7f) as u8);
    t.push((body & 0x7f) as u8);
    t.extend(std::iter::repeat(0).take(body));
    t
}

/// A 128-byte ID3v1 trailer.
fn id3v1() -> Vec<u8> {
    let mut t = vec![b'T', b'A', b'G'];
    t.extend(std::iter::repeat(0).take(125));
    t
}

/// A footer-only APEv2 tag.
fn apev2() -> Vec<u8> {
    let mut t = Vec::new();
    t.extend_from_slice(b"APETAGEX");
    t.extend_from_slice(&2000u32.to_le_bytes());
    t.extend_from_slice(&32u32.to_le_bytes());
    t.extend_from_slice(&0u32.to_le_bytes());
    t.extend_from_slice(&0u32.to_le_bytes());
    t.extend_from_slice(&[0u8; 8]);
    t
}

/// A bare MP3-like stream: frame sync bytes followed by payload.
fn mp3_stream() -> Vec<u8> {
    let mut f = vec![0xFF, 0xFB, 0x90, 0x00];
    f.extend((0u8..60).map(|i| i.wrapping_mul(7)));
    f
}

/// A minimal FLAC stream: marker, one last-flagged STREAMINFO block, frames.
fn flac_stream() -> Vec<u8> {
    let mut f = b"fLaC".to_vec();
    f.push(0x80);
    f.extend_from_slice(&[0, 0, 34]);
    f.extend(std::iter::repeat(0x11).take(34));
    f.extend_from_slice(&[0xFF, 0xF8, 1, 2, 3, 4, 5, 6]);
    f
}

#[test]
fn wav_detected_and_payload_isolated() {
    let audio = [1u8, 2, 3, 4, 5, 6, 7, 8];
    let file = wav_with_payload(&audio);
    assert_eq!(detect_format(&file), Some(AudioFormat::Wav));
    let ranges = payload_ranges(&file, AudioFormat::Wav).unwrap();
    assert_eq!(ranges.len(), 1);
    assert_eq!(&file[ranges[0].clone()], &audio);
}

#[test]
fn wav_hash_ignores_surrounding_chunks() {
    let audio = [9u8, 8, 7, 6, 5, 4, 3, 2, 1, 0];
    let file = wav_with_payload(&audio);
    let got = content_hash(&file).unwrap();
    let want = blake3::Hasher::new().update(&audio).finalize().to_hex().to_string();
    assert_eq!(got, want);
}

#[test]
fn hash_is_lowercase_hex_of_the_payload() {
    let audio = [42u8; 33];
    let got = content_hash(&wav_with_payload(&audio)).unwrap();
    assert_eq!(got.len(), 64);
    assert!(got.chars().all(|c| c.is_ascii_hexdigit() && !c.is_ascii_uppercase()));
    // Not the hash of the whole file: the wrapper hashes what it is given.
    let whole = blake3::hash(&wav_with_payload(&audio)).to_hex().to_string();
    assert_ne!(got, whole);
}

#[test]
fn unknown_bytes_are_an_unknown_format() {
    let junk = b"just some text, not audio".to_vec();
    assert_eq!(detect_format(&junk), None);
    assert!(hashable(&junk));
    assert_eq!(content_hash(&junk), Err(IdentityError::UnknownFormat));
}

#[test]
fn truncated_wav_is_malformed() {
    let mut file = wav_with_payload(&[1, 2, 3, 4]);
    file.truncate(30);
    assert_eq!(detect_format(&file), Some(AudioFormat::Wav));
    assert!(matches!(payload_ranges(&file, AudioFormat::Wav), Err(IdentityError::Malformed(_))));
}

#[test]
fn tags_around_an_mp3_do_not_change_identity() {
    let mp3 = mp3_stream();
    let tagged = [id3v2(50), mp3.clone(), apev2(), id3v1()].concat();
    assert_eq!(detect_format(&tagged), Some(AudioFormat::Mp3));
    assert_eq!(content_hash(&tagged).unwrap(), content_hash(&mp3).unwrap());
}

#[test]
fn id3_before_a_flac_does_not_change_identity() {
    let flac = flac_stream();
    let tagged = [id3v2(37), flac.clone()].concat();
    assert_eq!(detect_format(&tagged), Some(AudioFormat::Flac));
    assert_eq!(content_hash(&tagged).unwrap(), content_hash(&flac).unwrap());
    let ranges = payload_ranges(&flac, AudioFormat::Flac).unwrap();
    assert_eq!(ranges[0].start, 42);
    assert_eq!(ranges[0].end, flac.len());
}

#[test]
fn m4a_payload_is_the_mdat_body() {
    let mut f = Vec::new();
    f.extend_from_slice(&16u32.to_be_bytes());
    f.extend_from_slice(b"ftypM4A ");
    f.extend_from_slice(&[0, 0, 0, 0]);
    f.extend_from_slice(&12u32.to_be_bytes());
    f.extend_from_slice(b"mdat");
    f.extend_from_slice(&[7, 7, 7, 7]);
    assert_eq!(detect_format(&f), Some(AudioFormat::M4a));
    assert!(hashable(&f));
    let ranges = payload_ranges(&f, AudioFormat::M4a).unwrap();
    assert_eq!((ranges[0].start, ranges[0].end), (24, 28));
}

#[test]
fn m4a_walk_that_never_ends_is_not_hashable() {
    // A 64-bit box size of zero on a box that is not "mdat" leaves the walk
    // where it is.
    let mut f = Vec::new();
    f.extend_from_slice(&1u32.to_be_bytes());
    f.extend_from_slice(b"ftyp");
    f.extend_from_slice(&0u64.to_be_bytes());
    f.extend_from_slice(&[0u8; 8]);
    assert_eq!(detect_format(&f), Some(AudioFormat::M4a));
    assert!(!hashable(&f));
}

/// A short ADTS AAC stream: frame headers and some audio bytes.
fn aac_stream() -> Vec<u8> {
    let mut f = vec![0xFF, 0xF1, 0x50, 0x80];
    f.extend((0..60u8).map(|i| i.wrapping_mul(7)));
    f
}

#[test]
fn id3_and_a_v1_trailer_around_aac_do_not_change_identity() {
    let aac = aac_stream();
    assert_eq!(detect_format(&aac), Some(AudioFormat::Aac));
    let tagged = [id3v2(20), aac.clone(), id3v1()].concat();
    assert_eq!(content_hash(&tagged).unwrap(), content_hash(&aac).unwrap());
}
