//! Content identity of an audio file: the Blake3 hash of its encoded audio
//! payload, with tag regions and container overhead excluded, so that a track
//! keeps its identity across moves, renames and retags.
//!
//! The container is recognised from its leading bytes; the payload is then
//! located by walking the container's own structure.

use std::ops::Range;
use vstd::prelude::*;

verus! {

/// Name of the hash the identity uses.
pub const HASH_ALGORITHM: &'static str = "blake3";

/// Version of the byte-range extraction rules, recorded per entry alongside
/// the hash algorithm.
pub const PAYLOAD_EXTRACTION_VERSION: u32 = 1;

#[derive(Debug, Clone, Copy, PartialEq, Eq, Structural)]
pub enum AudioFormat {
    Flac,
    Wav,
    OggVorbis,
    Opus,
    Mp3,
    Aac,
    M4a,
}

#[derive(Debug, PartialEq, Eq)]
pub enum IdentityError {
    UnknownFormat,
    Malformed(&'static str),
}

// ---------------------------------------------------------------------------
// Byte-level reading
// ---------------------------------------------------------------------------

/// Four bytes `a b c d` stand at offset `p` of `s`.
pub open spec fn at4(s: Seq<u8>, p: int, a: u8, b: u8, c: u8, d: u8) -> bool {
    &&& 0 <= p
    &&& p + 4 <= s.len()
    &&& s[p] == a
    &&& s[p + 1] == b
    &&& s[p + 2] == c
    &&& s[p + 3] == d
}

/// Little-endian 32-bit value at `p`.
pub open spec fn le32(s: Seq<u8>, p: int) -> int {
    s[p] + s[p + 1] * 256 + s[p + 2] * 65536 + s[p + 3] * 16777216
}

/// Big-endian 32-bit value at `p`.
pub open spec fn be32(s: Seq<u8>, p: int) -> int {
    s[p] * 16777216 + s[p + 1] * 65536 + s[p + 2] * 256 + s[p + 3]
}

/// Big-endian 24-bit value at `p`.
pub open spec fn be24(s: Seq<u8>, p: int) -> int {
    s[p] * 65536 + s[p + 1] * 256 + s[p + 2]
}

/// Big-endian 64-bit value at `p`.
pub open spec fn be64(s: Seq<u8>, p: int) -> int {
    be32(s, p) * 4294967296 + be32(s, p + 4)
}

pub open spec fn min_int(a: int, b: int) -> int {
    if a < b { a } else { b }
}

fn at4_exec(data: &[u8], p: usize, a: u8, b: u8, c: u8, d: u8) -> (r: bool)
    ensures
        r == at4(data@, p as int, a, b, c, d),
{
    p <= data.len() && data.len() - p >= 4 && data[p] == a && data[p + 1] == b && data[p + 2]
        == c && data[p + 3] == d
}

fn read_le32(data: &[u8], p: usize) -> (r: u32)
    requires
        p + 4 <= data@.len(),
    ensures
        r as int == le32(data@, p as int),
{
    data[p] as u32 + data[p + 1] as u32 * 256 + data[p + 2] as u32 * 65536 + data[p + 3] as u32
        * 16777216
}

fn read_be32(data: &[u8], p: usize) -> (r: u32)
    requires
        p + 4 <= data@.len(),
    ensures
        r as int == be32(data@, p as int),
{
    data[p] as u32 * 16777216 + data[p + 1] as u32 * 65536 + data[p + 2] as u32 * 256
        + data[p + 3] as u32
}

fn read_be64(data: &[u8], p: usize) -> (r: u64)
    requires
        p + 8 <= data@.len(),
    ensures
        r as int == be64(data@, p as int),
{
    let n = data.len();
    let hi = read_be32(data, p);
    let lo = read_be32(data, p + 4);
    hi as u64 * 4294967296 + lo as u64
}

// ---------------------------------------------------------------------------
// ID3v2 prefix
// ---------------------------------------------------------------------------

/// The size field of an ID3v2 header, combined exactly as the four bytes are
/// or-ed together after shifting by 21, 14, 7 and 0 bits.
pub open spec fn id3_size(s: Seq<u8>) -> u32 {
    ((s[6] as u32) << 21u32) | ((s[7] as u32) << 14u32) | ((s[8] as u32) << 7u32) | (s[9] as u32)
}

/// Byte offset just past a leading ID3v2 tag ("ID3", two version bytes, a
/// flags byte, a four-byte size), clamped to the data length; 0 when absent.
/// A footer-present flag adds ten more bytes.
pub open spec fn id3v2_end_spec(s: Seq<u8>) -> int {
    if s.len() < 10 || !(s[0] == 0x49u8 && s[1] == 0x44u8 && s[2] == 0x33u8) {
        0
    } else {
        let footer: int = if s[5] & 0x10u8 != 0 { 10 } else { 0 };
        min_int(10 + id3_size(s) + footer, s.len() as int)
    }
}

proof fn lemma_id3_size_bound(a: u8, b: u8, c: u8, d: u8)
    ensures
        ((a as u32) << 21u32) | ((b as u32) << 14u32) | ((c as u32) << 7u32) | (d as u32)
            < 0x2000_0000u32,
{
    assert(((a as u32) << 21u32) | ((b as u32) << 14u32) | ((c as u32) << 7u32) | (d as u32)
        < 0x2000_0000u32) by (bit_vector);
}

fn id3v2_end(data: &[u8]) -> (r: usize)
    ensures
        r as int == id3v2_end_spec(data@),
        r <= data@.len(),
{
    if data.len() < 10 || !(data[0] == 0x49u8 && data[1] == 0x44u8 && data[2] == 0x33u8) {
        return 0;
    }
    let flags = data[5];
    let size: u32 = ((data[6] as u32) << 21u32) | ((data[7] as u32) << 14u32) | ((data[8] as u32)
        << 7u32) | (data[9] as u32);
    proof {
        lemma_id3_size_bound(data@[6], data@[7], data@[8], data@[9]);
    }
    let footer: usize = if flags & 0x10u8 != 0 { 10 } else { 0 };
    let total: usize = 10 + size as usize + footer;
    if total < data.len() {
        total
    } else {
        data.len()
    }
}

// ---------------------------------------------------------------------------
// Format detection
// ---------------------------------------------------------------------------

/// The codec of an Ogg stream whose first page starts at `st`, judged by the
/// signature of its first packet; `None` when neither Opus nor Vorbis.
pub open spec fn ogg_sniff(s: Seq<u8>, st: int) -> Option<AudioFormat> {
    let n = s.len() - st;
    if n >= 28 && at4(s, st, 0x4F, 0x67, 0x67, 0x53) {
        let body = st + 27 + s[st + 26];
        if n >= (body - st) + 8 && at4(s, body, 0x4F, 0x70, 0x75, 0x73) && at4(
            s,
            body + 4,
            0x48,
            0x65,
            0x61,
            0x64,
        ) {
            Some(AudioFormat::Opus)
        } else if n >= (body - st) + 7 && s[body] == 1u8 && at4(s, body + 1, 0x76, 0x6F, 0x72, 0x62)
            && s[body + 5] == 0x69u8 && s[body + 6] == 0x73u8 {
            Some(AudioFormat::OggVorbis)
        } else {
            None
        }
    } else {
        None
    }
}

/// The container format, recognised from the leading bytes after any ID3v2
/// prefix: "RIFF"...."WAVE", "fLaC", an Ogg page carrying "OpusHead" or
/// "\x01vorbis", "ftyp" at offset 4, or a 0xFF frame sync (AAC-ADTS when the
/// layer bits are zero and the sync nibble is full, MP3 otherwise).
pub open spec fn detect_spec(s: Seq<u8>) -> Option<AudioFormat> {
    let st = id3v2_end_spec(s);
    let n = s.len() - st;
    if n >= 12 && at4(s, st, 0x52, 0x49, 0x46, 0x46) && at4(s, st + 8, 0x57, 0x41, 0x56, 0x45) {
        Some(AudioFormat::Wav)
    } else if n >= 4 && at4(s, st, 0x66, 0x4C, 0x61, 0x43) {
        Some(AudioFormat::Flac)
    } else if ogg_sniff(s, st) is Some {
        ogg_sniff(s, st)
    } else if n >= 8 && at4(s, st + 4, 0x66, 0x74, 0x79, 0x70) {
        Some(AudioFormat::M4a)
    } else if n >= 2 && s[st] == 0xFFu8 && (s[st + 1] & 0xE0u8) == 0xE0u8 {
        if (s[st + 1] & 0x06u8) >> 1u8 == 0u8 && (s[st + 1] & 0xF0u8) == 0xF0u8 {
            Some(AudioFormat::Aac)
        } else {
            Some(AudioFormat::Mp3)
        }
    } else {
        None
    }
}

fn ogg_sniff_exec(data: &[u8], st: usize) -> (r: Option<AudioFormat>)
    requires
        st <= data@.len(),
    ensures
        r == ogg_sniff(data@, st as int),
{
    let n = data.len() - st;
    if n >= 28 && at4_exec(data, st, 0x4F, 0x67, 0x67, 0x53) {
        let rel: usize = 27 + data[st + 26] as usize;
        if n >= rel + 8 {
            let body = st + rel;
            if at4_exec(data, body, 0x4F, 0x70, 0x75, 0x73) && at4_exec(
                data,
                body + 4,
                0x48,
                0x65,
                0x61,
                0x64,
            ) {
                return Some(AudioFormat::Opus);
            }
        }
        if n >= rel + 7 {
            let body = st + rel;
            if data[body] == 1u8 && at4_exec(data, body + 1, 0x76, 0x6F, 0x72, 0x62) && data[body
                + 5] == 0x69u8 && data[body + 6] == 0x73u8 {
                return Some(AudioFormat::OggVorbis);
            }
        }
    }
    None
}

/// Identify the container from its leading bytes rather than the filename, so a
/// mislabelled file still hashes correctly. A leading ID3v2 tag (which some
/// taggers prepend even to FLAC) is skipped before sniffing.
pub fn detect_format(data: &[u8]) -> (r: Option<AudioFormat>)
    ensures
        r == detect_spec(data@),
{
    let st = id3v2_end(data);
    let n = data.len() - st;
    if n >= 12 && at4_exec(data, st, 0x52, 0x49, 0x46, 0x46) && at4_exec(
        data,
        st + 8,
        0x57,
        0x41,
        0x56,
        0x45,
    ) {
        return Some(AudioFormat::Wav);
    }
    if n >= 4 && at4_exec(data, st, 0x66, 0x4C, 0x61, 0x43) {
        return Some(AudioFormat::Flac);
    }
    let ogg = ogg_sniff_exec(data, st);
    if ogg.is_some() {
        return ogg;
    }
    if n >= 8 && at4_exec(data, st + 4, 0x66, 0x74, 0x79, 0x70) {
        return Some(AudioFormat::M4a);
    }
    if n >= 2 && data[st] == 0xFFu8 && (data[st + 1] & 0xE0u8) == 0xE0u8 {
        let b = data[st + 1];
        if (b & 0x06u8) >> 1u8 == 0u8 && (b & 0xF0u8) == 0xF0u8 {
            return Some(AudioFormat::Aac);
        }
        return Some(AudioFormat::Mp3);
    }
    None
}

// ---------------------------------------------------------------------------
// WAV: "RIFF" <size> "WAVE", then chunks "<id> <u32 le size> <body>", bodies
// padded to even length. The payload is the body of the "data" chunk.
// ---------------------------------------------------------------------------

pub open spec fn wav_scan(s: Seq<u8>, pos: int) -> Result<(int, int), IdentityError>
    decreases s.len() - pos,
{
    if pos + 8 <= s.len() {
        let size = le32(s, pos + 4);
        let body_start = pos + 8;
        if at4(s, pos, 0x64, 0x61, 0x74, 0x61) {
            Ok((body_start, min_int(body_start + size, s.len() as int)))
        } else if body_start + size + size % 2 > s.len() {
            Err(IdentityError::Malformed("wav: no data chunk"))
        } else {
            wav_scan(s, body_start + size + size % 2)
        }
    } else {
        Err(IdentityError::Malformed("wav: no data chunk"))
    }
}

fn wav_payload_ranges(data: &[u8]) -> (r: Result<Vec<Range<usize>>, IdentityError>)
    ensures
        ranges_agree(r, wav_scan(data@, 12)),
        r matches Ok(v) ==> in_bounds(v@[0], data@.len() as int, true),
{
    let mut pos: usize = 12;
    while pos <= data.len() && data.len() - pos >= 8
        invariant
            wav_scan(data@, pos as int) == wav_scan(data@, 12),
        decreases data.len() - pos,
    {
        let size = read_le32(data, pos + 4);
        let body_start = pos + 8;
        let remaining = data.len() - body_start;
        if at4_exec(data, pos, 0x64, 0x61, 0x74, 0x61) {
            let body_end = if size as u64 > remaining as u64 {
                data.len()
            } else {
                body_start + size as usize
            };
            return Ok(vec![body_start..body_end]);
        }
        let advance: u64 = size as u64 + (size % 2) as u64;
        if advance > remaining as u64 {
            return Err(IdentityError::Malformed("wav: no data chunk"));
        }
        pos = body_start + advance as usize;
    }
    Err(IdentityError::Malformed("wav: no data chunk"))
}

// ---------------------------------------------------------------------------
// FLAC: "fLaC", then metadata blocks with a 4-byte header (bit 7 of the first
// byte marks the last block, then a 24-bit big-endian length). The payload is
// everything after the metadata chain.
// ---------------------------------------------------------------------------

pub open spec fn flac_scan(s: Seq<u8>, pos: int) -> Result<(int, int), IdentityError>
    decreases s.len() - pos,
{
    if pos + 4 > s.len() {
        Err(IdentityError::Malformed("flac: truncated metadata"))
    } else {
        let next = pos + 4 + be24(s, pos + 1);
        if s[pos] & 0x80u8 != 0 {
            if next > s.len() {
                Err(IdentityError::Malformed("flac: metadata exceeds file"))
            } else {
                Ok((next, s.len() as int))
            }
        } else if next > s.len() {
            Err(IdentityError::Malformed("flac: truncated metadata"))
        } else {
            flac_scan(s, next)
        }
    }
}

pub open spec fn flac_spec(s: Seq<u8>) -> Result<(int, int), IdentityError> {
    let st = id3v2_end_spec(s);
    if !at4(s, st, 0x66, 0x4C, 0x61, 0x43) {
        Err(IdentityError::Malformed("flac: missing marker"))
    } else {
        flac_scan(s, st + 4)
    }
}

fn flac_payload_ranges(data: &[u8]) -> (r: Result<Vec<Range<usize>>, IdentityError>)
    ensures
        ranges_agree(r, flac_spec(data@)),
        r matches Ok(v) ==> in_bounds(v@[0], data@.len() as int, true),
{
    let n = data.len();
    let st = id3v2_end(data);
    if !at4_exec(data, st, 0x66, 0x4C, 0x61, 0x43) {
        return Err(IdentityError::Malformed("flac: missing marker"));
    }
    let mut pos = st + 4;
    loop
        invariant
            pos <= data@.len(),
            flac_scan(data@, pos as int) == flac_spec(data@),
        decreases data.len() - pos,
    {
        if data.len() - pos < 4 {
            return Err(IdentityError::Malformed("flac: truncated metadata"));
        }
        let last = data[pos] & 0x80u8 != 0;
        let len: usize = data[pos + 1] as usize * 65536 + data[pos + 2] as usize * 256
            + data[pos + 3] as usize;
        let room = data.len() - pos - 4;
        if len > room {
            if last {
                return Err(IdentityError::Malformed("flac: metadata exceeds file"));
            }
            return Err(IdentityError::Malformed("flac: truncated metadata"));
        }
        pos = pos + 4 + len;
        if last {
            return Ok(vec![pos..data.len()]);
        }
    }
}

// ---------------------------------------------------------------------------
// Ogg (Vorbis / Opus): pages "OggS" ... page_segments(1) + lacing table + body.
// A lacing value below 255 ends a packet. The payload is every page from the
// one after the codec's header packets to the end of the file.
// ---------------------------------------------------------------------------

/// Sum of the lacing values in `t`.
pub open spec fn lacing_sum(t: Seq<u8>) -> int
    decreases t.len(),
{
    if t.len() == 0 {
        0
    } else {
        lacing_sum(t.drop_last()) + t.last()
    }
}

/// Number of lacing values in `t` that end a packet.
pub open spec fn packet_ends(t: Seq<u8>) -> int
    decreases t.len(),
{
    if t.len() == 0 {
        0
    } else {
        packet_ends(t.drop_last()) + if t.last() < 255 {
            1int
        } else {
            0int
        }
    }
}

pub proof fn lemma_lacing_sum_nonneg(t: Seq<u8>)
    ensures
        lacing_sum(t) >= 0,
    decreases t.len(),
{
    if t.len() > 0 {
        lemma_lacing_sum_nonneg(t.drop_last());
    }
}

pub open spec fn ogg_scan(s: Seq<u8>, pos: int, completed: int, header_packets: int) -> Result<
    (int, int),
    IdentityError,
>
    decreases s.len() - pos,
{
    if pos + 27 <= s.len() {
        if !at4(s, pos, 0x4F, 0x67, 0x67, 0x53) {
            Err(IdentityError::Malformed("ogg: bad page capture"))
        } else {
            let segs = s[pos + 26] as int;
            let table = pos + 27;
            if table + segs > s.len() {
                Err(IdentityError::Malformed("ogg: truncated segment table"))
            } else {
                let lacing = s.subrange(table, table + segs);
                let page_end = table + segs + lacing_sum(lacing);
                proof {
                    lemma_lacing_sum_nonneg(lacing);
                }
                let done = completed + packet_ends(lacing);
                if done >= header_packets {
                    Ok((min_int(page_end, s.len() as int), s.len() as int))
                } else if page_end > s.len() {
                    Err(IdentityError::Malformed("ogg: no audio pages"))
                } else {
                    ogg_scan(s, page_end, done, header_packets)
                }
            }
        }
    } else {
        Err(IdentityError::Malformed("ogg: no audio pages"))
    }
}

fn ogg_payload_ranges(data: &[u8], header_packets: usize) -> (r: Result<
    Vec<Range<usize>>,
    IdentityError,
>)
    requires
        header_packets > 0,
    ensures
        ranges_agree(r, ogg_scan(data@, id3v2_end_spec(data@), 0, header_packets as int)),
        r matches Ok(v) ==> in_bounds(v@[0], data@.len() as int, true),
{
    let mut pos = id3v2_end(data);
    let mut completed: usize = 0;
    let ghost start = pos;
    while pos <= data.len() && data.len() - pos >= 27
        invariant
            pos <= data@.len() + 0,
            completed < header_packets,
            ogg_scan(data@, pos as int, completed as int, header_packets as int) == ogg_scan(
                data@,
                start as int,
                0,
                header_packets as int,
            ),
            start == id3v2_end_spec(data@),
        decreases data.len() - pos,
    {
        if !at4_exec(data, pos, 0x4F, 0x67, 0x67, 0x53) {
            return Err(IdentityError::Malformed("ogg: bad page capture"));
        }
        let segs = data[pos + 26] as usize;
        let table = pos + 27;
        if segs > data.len() - table {
            return Err(IdentityError::Malformed("ogg: truncated segment table"));
        }
        let mut body_len: usize = 0;
        let mut ends: usize = 0;
        let mut i: usize = 0;
        let n = data.len();
        while i < segs
            invariant
                n == data@.len(),
                segs <= 255,
                table + segs <= data@.len(),
                i <= segs,
                body_len as int == lacing_sum(data@.subrange(table as int, table + i)),
                ends as int == packet_ends(data@.subrange(table as int, table + i)),
                body_len <= 255 * i,
                ends <= i,
            decreases segs - i,
        {
            let v = data[table + i];
            assert(data@.subrange(table as int, table + i + 1).drop_last() =~= data@.subrange(
                table as int,
                table + i,
            ));
            body_len = body_len + v as usize;
            if v < 255 {
                ends = ends + 1;
            }
            i = i + 1;
        }
        let fits = body_len <= data.len() - (table + segs);
        if ends >= header_packets - completed {
            let start_at = if fits {
                table + segs + body_len
            } else {
                data.len()
            };
            return Ok(vec![start_at..data.len()]);
        }
        completed = completed + ends;
        if !fits {
            return Err(IdentityError::Malformed("ogg: no audio pages"));
        }
        pos = table + segs + body_len;
    }
    Err(IdentityError::Malformed("ogg: no audio pages"))
}

// ---------------------------------------------------------------------------
// M4A / MP4: boxes "<u32 be size> <type> <body>". The payload is the body of
// the "mdat" box. A size of 1 means a 64-bit size follows the type; a size of
// 0 runs the box to the end of the file.
// ---------------------------------------------------------------------------

/// The walk over the boxes from `pos`: `None` when the walk never ends (a
/// non-"mdat" box whose 64-bit size is zero leaves the position unchanged).
pub open spec fn m4a_scan(s: Seq<u8>, pos: int) -> Option<Result<(int, int), IdentityError>>
    decreases s.len() - pos,
{
    if pos + 8 <= s.len() {
        let size32 = be32(s, pos);
        if size32 == 1 && pos + 16 > s.len() {
            Some(Err(IdentityError::Malformed("m4a: truncated 64-bit size")))
        } else {
            let header_len: int = if size32 == 1 { 16 } else { 8 };
            let box_len: int = if size32 == 1 {
                be64(s, pos + 8)
            } else if size32 == 0 {
                s.len() - pos
            } else {
                size32
            };
            if at4(s, pos + 4, 0x6D, 0x64, 0x61, 0x74) {
                Some(Ok((pos + header_len, min_int(pos + box_len, s.len() as int))))
            } else if box_len == 0 {
                None
            } else if pos + box_len > s.len() {
                Some(Err(IdentityError::Malformed("m4a: no mdat box")))
            } else {
                m4a_scan(s, pos + box_len)
            }
        }
    } else {
        Some(Err(IdentityError::Malformed("m4a: no mdat box")))
    }
}

fn m4a_payload_ranges(data: &[u8]) -> (r: Result<Vec<Range<usize>>, IdentityError>)
    requires
        m4a_scan(data@, 0) is Some,
    ensures
        ranges_agree(r, m4a_scan(data@, 0).unwrap()),
        r matches Ok(v) ==> in_bounds(v@[0], data@.len() as int, false),
{
    let mut pos: usize = 0;
    while pos <= data.len() && data.len() - pos >= 8
        invariant
            m4a_scan(data@, pos as int) == m4a_scan(data@, 0),
            m4a_scan(data@, 0) is Some,
        decreases data.len() - pos,
    {
        let size32 = read_be32(data, pos);
        let header_len: usize;
        let box_len: u64;
        if size32 == 1 {
            if data.len() - pos < 16 {
                return Err(IdentityError::Malformed("m4a: truncated 64-bit size"));
            }
            header_len = 16;
            box_len = read_be64(data, pos + 8);
        } else if size32 == 0 {
            header_len = 8;
            box_len = (data.len() - pos) as u64;
        } else {
            header_len = 8;
            box_len = size32 as u64;
        }
        let room = data.len() - pos;
        if at4_exec(data, pos + 4, 0x6D, 0x64, 0x61, 0x74) {
            let body = pos + header_len;
            let end = if box_len > room as u64 {
                data.len()
            } else {
                pos + box_len as usize
            };
            return Ok(vec![body..end]);
        }
        if box_len > room as u64 {
            return Err(IdentityError::Malformed("m4a: no mdat box"));
        }
        pos = pos + box_len as usize;
    }
    Err(IdentityError::Malformed("m4a: no mdat box"))
}

/// Whether the box walk ends, and on an "mdat" box at least as long as its
/// own header when it finds one.
fn m4a_walk_defined(data: &[u8]) -> (r: bool)
    ensures
        r == match m4a_scan(data@, 0) {
            None => false,
            Some(Ok((a, b))) => a <= b,
            Some(Err(_)) => true,
        },
{
    let mut pos: usize = 0;
    while pos <= data.len() && data.len() - pos >= 8
        invariant
            m4a_scan(data@, pos as int) == m4a_scan(data@, 0),
        decreases data.len() - pos,
    {
        let size32 = read_be32(data, pos);
        let header_len: usize;
        let box_len: u64;
        if size32 == 1 {
            if data.len() - pos < 16 {
                return true;
            }
            header_len = 16;
            box_len = read_be64(data, pos + 8);
        } else if size32 == 0 {
            header_len = 8;
            box_len = (data.len() - pos) as u64;
        } else {
            header_len = 8;
            box_len = size32 as u64;
        }
        let room = data.len() - pos;
        if at4_exec(data, pos + 4, 0x6D, 0x64, 0x61, 0x74) {
            let body = pos + header_len;
            let end = if box_len > room as u64 {
                data.len()
            } else {
                pos + box_len as usize
            };
            return body <= end;
        }
        if box_len == 0 {
            return false;
        }
        if box_len > room as u64 {
            return true;
        }
        pos = pos + box_len as usize;
    }
    true
}

/// Whether the payload of `data` can be hashed: `content_hash` is defined on
/// exactly these inputs.
pub fn hashable(data: &[u8]) -> (r: bool)
    ensures
        r == payload_defined(data@),
{
    match detect_format(data) {
        None => true,
        Some(AudioFormat::M4a) => m4a_walk_defined(data),
        Some(f) => match payload_ranges(data, f) {
            Ok(v) => v[0].start <= v[0].end,
            Err(_) => true,
        },
    }
}

// ---------------------------------------------------------------------------
// MP3 / AAC: no container. The payload lies between a leading ID3v2 tag and
// any trailing tags: a 128-byte ID3v1 block beginning "TAG", and an APEv2 tag
// whose 32-byte footer begins "APETAGEX" (its size field covers items and
// footer; a header flag adds a 32-byte header in front).
// ---------------------------------------------------------------------------

/// End of the payload after an ID3v1 trailer has been stripped.
pub open spec fn strip_id3v1(s: Seq<u8>, start: int) -> int {
    let end = s.len() as int;
    if end >= start + 128 && s[end - 128] == 0x54u8 && s[end - 127] == 0x41u8 && s[end - 126]
        == 0x47u8 {
        end - 128
    } else {
        end
    }
}

/// End of the payload after an APEv2 tag ending at `end` has been stripped.
pub open spec fn strip_apev2(s: Seq<u8>, start: int, end: int) -> int {
    if end >= start + 32 && at4(s, end - 32, 0x41, 0x50, 0x45, 0x54) && at4(
        s,
        end - 28,
        0x41,
        0x47,
        0x45,
        0x58,
    ) {
        let tag_size = le32(s, end - 20);
        let header: int = if le32(s, end - 12) >= 0x8000_0000 { 32 } else { 0 };
        if end - (tag_size + header) > 0 {
            end - (tag_size + header)
        } else {
            0
        }
    } else {
        end
    }
}

pub open spec fn framed_spec(s: Seq<u8>) -> Result<(int, int), IdentityError> {
    let start = id3v2_end_spec(s);
    let end = strip_apev2(s, start, strip_id3v1(s, start));
    if end < start {
        Err(IdentityError::Malformed("framed: tags overlap"))
    } else {
        Ok((start, end))
    }
}

fn framed_payload_ranges(data: &[u8]) -> (r: Result<Vec<Range<usize>>, IdentityError>)
    ensures
        ranges_agree(r, framed_spec(data@)),
        r matches Ok(v) ==> in_bounds(v@[0], data@.len() as int, true),
{
    let start = id3v2_end(data);
    let mut end = data.len();
    if end - start >= 128 && data[end - 128] == 0x54u8 && data[end - 127] == 0x41u8 && data[end
        - 126] == 0x47u8 {
        end = end - 128;
    }
    if end >= start && end - start >= 32 && at4_exec(data, end - 32, 0x41, 0x50, 0x45, 0x54)
        && at4_exec(data, end - 28, 0x41, 0x47, 0x45, 0x58) {
        let tag_size = read_le32(data, end - 20);
        let flags = read_le32(data, end - 12);
        let header: u64 = if flags >= 0x8000_0000u32 { 32 } else { 0 };
        let cut: u64 = tag_size as u64 + header;
        if cut < end as u64 {
            end = end - cut as usize;
        } else {
            end = 0;
        }
    }
    if end < start {
        return Err(IdentityError::Malformed("framed: tags overlap"));
    }
    Ok(vec![start..end])
}

// ---------------------------------------------------------------------------
// Dispatch and hashing
// ---------------------------------------------------------------------------

/// Where the payload of `s` lies when read as `format`: `None` only for an
/// M4A box walk that never ends.
pub open spec fn payload_spec(s: Seq<u8>, format: AudioFormat) -> Option<
    Result<(int, int), IdentityError>,
> {
    match format {
        AudioFormat::Wav => Some(wav_scan(s, 12)),
        AudioFormat::Flac => Some(flac_spec(s)),
        AudioFormat::OggVorbis => Some(ogg_scan(s, id3v2_end_spec(s), 0, 3)),
        AudioFormat::Opus => Some(ogg_scan(s, id3v2_end_spec(s), 0, 2)),
        AudioFormat::M4a => m4a_scan(s, 0),
        AudioFormat::Mp3 => Some(framed_spec(s)),
        AudioFormat::Aac => Some(framed_spec(s)),
    }
}

/// The executable result agrees with the specified one: the same error, or a
/// single range with the specified bounds.
pub open spec fn ranges_agree(
    r: Result<Vec<Range<usize>>, IdentityError>,
    s: Result<(int, int), IdentityError>,
) -> bool {
    match (r, s) {
        (Ok(v), Ok((a, b))) => v@.len() == 1 && v@[0].start == a && v@[0].end == b,
        (Err(e1), Err(e2)) => e1 == e2,
        _ => false,
    }
}

/// A range lies within `len` bytes, and is ordered when `ordered` holds.
pub open spec fn in_bounds(r: Range<usize>, len: int, ordered: bool) -> bool {
    &&& r.start <= len
    &&& r.end <= len
    &&& ordered ==> r.start <= r.end
}

/// The byte ranges of the encoded audio payload, in file order.
pub fn payload_ranges(data: &[u8], format: AudioFormat) -> (r: Result<
    Vec<Range<usize>>,
    IdentityError,
>)
    requires
        payload_spec(data@, format) is Some,
    ensures
        ranges_agree(r, payload_spec(data@, format).unwrap()),
        r matches Ok(v) ==> in_bounds(v@[0], data@.len() as int, format != AudioFormat::M4a),
{
    match format {
        AudioFormat::Wav => wav_payload_ranges(data),
        AudioFormat::Flac => flac_payload_ranges(data),
        AudioFormat::OggVorbis => ogg_payload_ranges(data, 3),
        AudioFormat::Opus => ogg_payload_ranges(data, 2),
        AudioFormat::M4a => m4a_payload_ranges(data),
        AudioFormat::Mp3 => framed_payload_ranges(data),
        AudioFormat::Aac => framed_payload_ranges(data),
    }
}

/// The payload lies where the container says and, for M4A, the walk ends and
/// the "mdat" box is at least as long as its own header; otherwise hashing
/// the payload would never finish or would slice backwards.
pub open spec fn payload_defined(s: Seq<u8>) -> bool {
    match detect_spec(s) {
        None => true,
        Some(f) => match payload_spec(s, f) {
            None => false,
            Some(Ok((a, b))) => a <= b,
            Some(Err(_)) => true,
        },
    }
}

/// The encoded audio payload of `s`, or why there is none.
pub open spec fn identity_payload(s: Seq<u8>) -> Result<Seq<u8>, IdentityError> {
    match detect_spec(s) {
        None => Err(IdentityError::UnknownFormat),
        Some(f) => match payload_spec(s, f) {
            Some(Ok((a, b))) => Ok(s.subrange(a, b)),
            Some(Err(e)) => Err(e),
            None => Err(IdentityError::UnknownFormat),
        },
    }
}

/// The lowercase hexadecimal rendering of the Blake3 digest of `bytes`.
pub uninterp spec fn blake3_hex(bytes: Seq<u8>) -> Seq<char>;

/// Hashes `bytes` with `blake3::hash` and renders the digest with
/// `Hash::to_hex`. The contract names the result and states only that it is
/// 64 characters long (two hex digits for each of the 32 digest bytes); the
/// digest itself is not described.
#[verifier::external_body]
fn blake3_hex_string(bytes: &[u8]) -> (r: String)
    ensures
        r@ == blake3_hex(bytes@),
        r@.len() == 64,
{
    blake3::hash(bytes).to_hex().to_string()
}

/// The hex Blake3 hash of a file's encoded audio payload. The payload bytes
/// are gathered in file order and hashed as one input, which Blake3 defines to
/// be the same as feeding them to one hasher piece by piece.
pub fn content_hash(data: &[u8]) -> (r: Result<String, IdentityError>)
    requires
        payload_defined(data@),
    ensures
        match identity_payload(data@) {
            Ok(p) => r matches Ok(h) && h@ == blake3_hex(p),
            Err(e) => r == Err::<String, IdentityError>(e),
        },
{
    let format = match detect_format(data) {
        Some(f) => f,
        None => return Err(IdentityError::UnknownFormat),
    };
    let ranges = match payload_ranges(data, format) {
        Ok(v) => v,
        Err(e) => return Err(e),
    };
    let start = ranges[0].start;
    let end = ranges[0].end;
    let mut bytes: Vec<u8> = Vec::new();
    let mut k = start;
    while k < end
        invariant
            start <= k <= end,
            end <= data@.len(),
            bytes@ == data@.subrange(start as int, k as int),
        decreases end - k,
    {
        bytes.push(data[k]);
        assert(bytes@ =~= data@.subrange(start as int, k + 1));
        k = k + 1;
    }
    Ok(blake3_hex_string(&bytes))
}

} // verus!
