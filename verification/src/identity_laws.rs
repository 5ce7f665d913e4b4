//! Tags do not change identity: wrapping a clean file in the tags that
//! taggers add leaves its identity payload, and so its hash, unchanged.

use crate::identity::{
    at4, be24, detect_spec, flac_scan, framed_spec, id3v2_end_spec, identity_payload, lacing_sum,
    le32, ogg_scan, packet_ends, payload_defined, payload_spec, strip_apev2, strip_id3v1,
    AudioFormat, IdentityError,
};
use vstd::prelude::*;

verus! {

/// A well-formed ID3v2 tag: "ID3", two version bytes, a flags byte without
/// the footer flag, and four synchsafe size bytes (each below 128) whose value
/// is the length of the body following the 10-byte header.
pub open spec fn is_id3v2_tag(t: Seq<u8>) -> bool {
    &&& t.len() >= 10
    &&& t[0] == 0x49u8 && t[1] == 0x44u8 && t[2] == 0x33u8
    &&& t[5] & 0x10u8 == 0
    &&& t[6] < 128 && t[7] < 128 && t[8] < 128 && t[9] < 128
    &&& t[6] * 2097152 + t[7] * 16384 + t[8] * 128 + t[9] == t.len() - 10
}

/// A 128-byte ID3v1 trailer: "TAG" and 125 further bytes.
pub open spec fn is_id3v1_tag(v: Seq<u8>) -> bool {
    &&& v.len() == 128
    &&& v[0] == 0x54u8 && v[1] == 0x41u8 && v[2] == 0x47u8
}

/// A footer-only APEv2 tag: the 32-byte footer "APETAGEX", a tag size of 32
/// (the footer alone) and flags that announce no header.
pub open spec fn is_apev2_footer_tag(a: Seq<u8>) -> bool {
    &&& a.len() == 32
    &&& at4(a, 0, 0x41, 0x50, 0x45, 0x54)
    &&& at4(a, 4, 0x41, 0x47, 0x45, 0x58)
    &&& le32(a, 12) == 32
    &&& le32(a, 20) < 0x8000_0000
}

pub open spec fn shifted(r: Result<(int, int), IdentityError>, k: int) -> Result<
    (int, int),
    IdentityError,
> {
    match r {
        Ok((a, b)) => Ok((a + k, b + k)),
        Err(e) => Err(e),
    }
}

proof fn lemma_synchsafe_value(a: u8, b: u8, c: u8, d: u8)
    requires
        a < 128,
        b < 128,
        c < 128,
        d < 128,
    ensures
        ((a as u32) << 21u32) | ((b as u32) << 14u32) | ((c as u32) << 7u32) | (d as u32) == (a
            as u32) * 2097152u32 + (b as u32) * 16384u32 + (c as u32) * 128u32 + (d as u32),
{
    assert(((a as u32) << 21u32) | ((b as u32) << 14u32) | ((c as u32) << 7u32) | (d as u32) == (a
        as u32) * 2097152u32 + (b as u32) * 16384u32 + (c as u32) * 128u32 + (d as u32))
        by (bit_vector)
        requires
            a < 128,
            b < 128,
            c < 128,
            d < 128,
    ;
}

/// A well-formed ID3v2 tag in front of anything ends exactly where the tag does.
pub proof fn lemma_id3v2_prefix_end(t: Seq<u8>, c: Seq<u8>)
    requires
        is_id3v2_tag(t),
    ensures
        id3v2_end_spec(t + c) == t.len(),
{
    let s = t + c;
    assert(s[0] == t[0] && s[1] == t[1] && s[2] == t[2] && s[5] == t[5]);
    assert(s[6] == t[6] && s[7] == t[7] && s[8] == t[8] && s[9] == t[9]);
    lemma_synchsafe_value(t[6], t[7], t[8], t[9]);
}

proof fn lemma_flac_scan_shift(t: Seq<u8>, c: Seq<u8>, p: int)
    requires
        0 <= p,
    ensures
        flac_scan(t + c, t.len() + p) == shifted(flac_scan(c, p), t.len() as int),
    decreases c.len() - p,
{
    let s = t + c;
    let k = t.len() as int;
    if p + 4 <= c.len() {
        assert(s[k + p] == c[p]);
        assert(s[k + p + 1] == c[p + 1]);
        assert(s[k + p + 2] == c[p + 2]);
        assert(s[k + p + 3] == c[p + 3]);
        let next = p + 4 + be24(c, p + 1);
        if c[p] & 0x80u8 == 0 && next <= c.len() {
            lemma_flac_scan_shift(t, c, next);
        }
    }
}

/// An ID3v2 tag prepended to a FLAC file leaves its identity payload as it was.
pub proof fn lemma_id3v2_prefix_keeps_flac_payload(tag: Seq<u8>, clean: Seq<u8>)
    requires
        is_id3v2_tag(tag),
        at4(clean, 0, 0x66, 0x4C, 0x61, 0x43),
    ensures
        detect_spec(tag + clean) == Some(AudioFormat::Flac),
        detect_spec(clean) == Some(AudioFormat::Flac),
        payload_defined(tag + clean),
        payload_defined(clean),
        identity_payload(tag + clean) == identity_payload(clean),
{
    let s = tag + clean;
    let k = tag.len() as int;
    lemma_id3v2_prefix_end(tag, clean);
    assert(s[k] == clean[0] && s[k + 1] == clean[1] && s[k + 2] == clean[2] && s[k + 3]
        == clean[3]);
    assert(id3v2_end_spec(clean) == 0);
    lemma_flac_scan_shift(tag, clean, 4);
    assert(flac_scan(s, k + 4) == shifted(flac_scan(clean, 4), k));
    lemma_flac_scan_bounds(clean, 4);
    match flac_scan(clean, 4) {
        Ok((a, b)) => {
            assert(s.subrange(a + k, b + k) =~= clean.subrange(a, b));
        },
        Err(_) => {},
    }
}

proof fn lemma_flac_scan_bounds(c: Seq<u8>, p: int)
    requires
        0 <= p,
    ensures
        flac_scan(c, p) matches Ok((a, b)) ==> p <= a <= b && b == c.len(),
    decreases c.len() - p,
{
    if p + 4 <= c.len() {
        let next = p + 4 + be24(c, p + 1);
        if c[p] & 0x80u8 == 0 && next <= c.len() {
            lemma_flac_scan_bounds(c, next);
        }
    }
}

/// MP3 or AAC data carrying no tags of its own, wrapped in an ID3v2 tag in
/// front and a footer-only APEv2 tag and an ID3v1 trailer behind, keeps its
/// identity payload: the tags are all stripped.
pub proof fn lemma_tags_keep_framed_payload(
    tag: Seq<u8>,
    clean: Seq<u8>,
    ape: Seq<u8>,
    v1: Seq<u8>,
)
    requires
        is_id3v2_tag(tag),
        is_apev2_footer_tag(ape),
        is_id3v1_tag(v1),
        clean.len() >= 8,
        detect_spec(clean) == Some(AudioFormat::Mp3) || detect_spec(clean) == Some(
            AudioFormat::Aac,
        ),
        framed_spec(clean) == Ok::<(int, int), IdentityError>((0, clean.len() as int)),
    ensures
        detect_spec(tag + clean + ape + v1) == detect_spec(clean),
        payload_defined(tag + clean + ape + v1),
        payload_defined(clean),
        identity_payload(tag + clean + ape + v1) == identity_payload(clean),
{
    let s = tag + clean + ape + v1;
    let k = tag.len() as int;
    let c = clean.len() as int;
    assert(s == tag + (clean + ape + v1)) by {
        assert(s =~= tag + (clean + ape + v1));
    }
    lemma_id3v2_prefix_end(tag, clean + ape + v1);
    assert(id3v2_end_spec(s) == k);
    // The leading bytes after the ID3v2 tag are the clean file's own.
    assert forall|i: int| 0 <= i < c implies #[trigger] s[k + i] == clean[i] by {}
    assert(s[k] == clean[0] && s[k + 1] == clean[1]);
    assert(s[k + 2] == clean[2] && s[k + 3] == clean[3]);
    assert(s[k + 4] == clean[4] && s[k + 5] == clean[5]);
    assert(s[k + 6] == clean[6] && s[k + 7] == clean[7]);
    assert(clean[0] == 0xFFu8);
    assert(id3v2_end_spec(clean) == 0);
    assert(detect_spec(s) == detect_spec(clean));
    // The ID3v1 trailer is stripped, then the APEv2 footer.
    let l = s.len() as int;
    assert(l == k + c + 160);
    assert(s[l - 128] == v1[0] && s[l - 127] == v1[1] && s[l - 126] == v1[2]);
    assert(strip_id3v1(s, k) == k + c + 32);
    let e = k + c + 32;
    assert(s[e - 32] == ape[0] && s[e - 31] == ape[1] && s[e - 30] == ape[2] && s[e - 29]
        == ape[3]);
    assert(s[e - 28] == ape[4] && s[e - 27] == ape[5] && s[e - 26] == ape[6] && s[e - 25]
        == ape[7]);
    assert(s[e - 20] == ape[12] && s[e - 19] == ape[13] && s[e - 18] == ape[14] && s[e - 17]
        == ape[15]);
    assert(s[e - 12] == ape[20] && s[e - 11] == ape[21] && s[e - 10] == ape[22] && s[e - 9]
        == ape[23]);
    assert(strip_apev2(s, k, e) == k + c);
    assert(framed_spec(s) == Ok::<(int, int), IdentityError>((k, k + c)));
    assert(s.subrange(k, k + c) =~= clean);
    assert(clean.subrange(0, c) =~= clean);
}

/// MP3 or AAC data carrying no tags of its own, wrapped in an ID3v2 tag in
/// front and an ID3v1 trailer behind (no APEv2 tag), keeps its identity
/// payload.
pub proof fn lemma_id3v2_and_id3v1_keep_framed_payload(tag: Seq<u8>, clean: Seq<u8>, v1: Seq<u8>)
    requires
        is_id3v2_tag(tag),
        is_id3v1_tag(v1),
        clean.len() >= 8,
        detect_spec(clean) == Some(AudioFormat::Mp3) || detect_spec(clean) == Some(
            AudioFormat::Aac,
        ),
        framed_spec(clean) == Ok::<(int, int), IdentityError>((0, clean.len() as int)),
    ensures
        detect_spec(tag + clean + v1) == detect_spec(clean),
        payload_defined(tag + clean + v1),
        payload_defined(clean),
        identity_payload(tag + clean + v1) == identity_payload(clean),
{
    let s = tag + clean + v1;
    let k = tag.len() as int;
    let c = clean.len() as int;
    assert(s == tag + (clean + v1)) by {
        assert(s =~= tag + (clean + v1));
    }
    lemma_id3v2_prefix_end(tag, clean + v1);
    assert(id3v2_end_spec(s) == k);
    assert forall|i: int| 0 <= i < c implies #[trigger] s[k + i] == clean[i] by {}
    assert(s[k] == clean[0] && s[k + 1] == clean[1]);
    assert(s[k + 2] == clean[2] && s[k + 3] == clean[3]);
    assert(s[k + 4] == clean[4] && s[k + 5] == clean[5]);
    assert(s[k + 6] == clean[6] && s[k + 7] == clean[7]);
    assert(clean[0] == 0xFFu8);
    assert(id3v2_end_spec(clean) == 0);
    assert(detect_spec(s) == detect_spec(clean));
    // The ID3v1 trailer is stripped.
    let l = s.len() as int;
    assert(l == k + c + 128);
    assert(s[l - 128] == v1[0] && s[l - 127] == v1[1] && s[l - 126] == v1[2]);
    assert(strip_id3v1(s, k) == k + c);
    // The clean data ends the same way inside the wrapped file, so the
    // APEv2 check finds what it finds in the clean data.
    assert(strip_id3v1(clean, 0) == c) by {
        if strip_id3v1(clean, 0) != c {
            assert(strip_apev2(clean, 0, c - 128) <= c - 128);
        }
    }
    assert(strip_apev2(clean, 0, c) == c);
    if c >= 32 {
        let e = k + c;
        assert(s[e - 32] == clean[c - 32] && s[e - 31] == clean[c - 31] && s[e - 30] == clean[c
            - 30] && s[e - 29] == clean[c - 29]);
        assert(s[e - 28] == clean[c - 28] && s[e - 27] == clean[c - 27] && s[e - 26] == clean[c
            - 26] && s[e - 25] == clean[c - 25]);
        assert(s[e - 20] == clean[c - 20] && s[e - 19] == clean[c - 19] && s[e - 18] == clean[c
            - 18] && s[e - 17] == clean[c - 17]);
        assert(s[e - 12] == clean[c - 12] && s[e - 11] == clean[c - 11] && s[e - 10] == clean[c
            - 10] && s[e - 9] == clean[c - 9]);
    }
    assert(strip_apev2(s, k, k + c) == k + c);
    assert(framed_spec(s) == Ok::<(int, int), IdentityError>((k, k + c)));
    assert(s.subrange(k, k + c) =~= clean);
    assert(clean.subrange(0, c) =~= clean);
}

/// An Ogg page at `pos` holding one whole packet: the capture "OggS", one
/// lacing value below 255 (so the packet ends on this page), and a body of
/// that many bytes within the file.
pub open spec fn one_packet_page(s: Seq<u8>, pos: int) -> bool {
    &&& 0 <= pos
    &&& pos + 28 <= s.len()
    &&& at4(s, pos, 0x4F, 0x67, 0x67, 0x53)
    &&& s[pos + 26] == 1
    &&& s[pos + 27] < 255
    &&& pos + 28 + s[pos + 27] <= s.len()
}

/// Where the page at `pos` ends and the next begins.
pub open spec fn page_after(s: Seq<u8>, pos: int) -> int {
    pos + 28 + s[pos + 27]
}

/// Reading a one-packet page completes one packet and moves past it.
proof fn lemma_one_packet_page_step(s: Seq<u8>, pos: int, completed: int, header_packets: int)
    requires
        one_packet_page(s, pos),
    ensures
        completed + 1 >= header_packets ==> ogg_scan(s, pos, completed, header_packets) == Ok::<
            (int, int),
            IdentityError,
        >((page_after(s, pos), s.len() as int)),
        completed + 1 < header_packets ==> ogg_scan(s, pos, completed, header_packets) == ogg_scan(
            s,
            page_after(s, pos),
            completed + 1,
            header_packets,
        ),
{
    let t = pos + 27;
    let lacing = s.subrange(t, t + 1);
    assert(lacing =~= seq![s[t]]);
    assert(lacing.drop_last() =~= Seq::<u8>::empty());
    assert(lacing.last() == s[t]);
    assert(lacing_sum(Seq::<u8>::empty()) == 0);
    assert(packet_ends(Seq::<u8>::empty()) == 0);
    assert(lacing_sum(lacing) == s[t] as int);
    assert(packet_ends(lacing) == 1);
}

/// An Opus stream's payload starts after its two header packets: with the
/// identification header (OpusHead) and the comment header (OpusTags) each
/// on a page of its own, the payload is every byte from the third page on.
pub proof fn lemma_opus_skips_two_header_packets(s: Seq<u8>)
    requires
        one_packet_page(s, id3v2_end_spec(s)),
        one_packet_page(s, page_after(s, id3v2_end_spec(s))),
    ensures
        payload_spec(s, AudioFormat::Opus) == Some(
            Ok::<(int, int), IdentityError>((
                page_after(s, page_after(s, id3v2_end_spec(s))),
                s.len() as int,
            )),
        ),
        detect_spec(s) == Some(AudioFormat::Opus) ==> identity_payload(s) == Ok::<
            Seq<u8>,
            IdentityError,
        >(s.subrange(page_after(s, page_after(s, id3v2_end_spec(s))), s.len() as int)),
{
    let p1 = id3v2_end_spec(s);
    let p2 = page_after(s, p1);
    lemma_one_packet_page_step(s, p1, 0, 2);
    lemma_one_packet_page_step(s, p2, 1, 2);
}

/// A Vorbis stream's payload starts after its three header packets
/// (identification, comment and setup): with each on a page of its own, the
/// payload is every byte from the fourth page on.
pub proof fn lemma_vorbis_skips_three_header_packets(s: Seq<u8>)
    requires
        one_packet_page(s, id3v2_end_spec(s)),
        one_packet_page(s, page_after(s, id3v2_end_spec(s))),
        one_packet_page(s, page_after(s, page_after(s, id3v2_end_spec(s)))),
    ensures
        payload_spec(s, AudioFormat::OggVorbis) == Some(
            Ok::<(int, int), IdentityError>((
                page_after(s, page_after(s, page_after(s, id3v2_end_spec(s)))),
                s.len() as int,
            )),
        ),
        detect_spec(s) == Some(AudioFormat::OggVorbis) ==> identity_payload(s) == Ok::<
            Seq<u8>,
            IdentityError,
        >(
            s.subrange(
                page_after(s, page_after(s, page_after(s, id3v2_end_spec(s)))),
                s.len() as int,
            ),
        ),
{
    let p1 = id3v2_end_spec(s);
    let p2 = page_after(s, p1);
    let p3 = page_after(s, p2);
    lemma_one_packet_page_step(s, p1, 0, 3);
    lemma_one_packet_page_step(s, p2, 1, 3);
    lemma_one_packet_page_step(s, p3, 2, 3);
}

} // verus!
