//! A log line reads back as the event it was written from.

use crate::calendar_laws::{lemma_civil_ranges, lemma_days_from_civil_inverts};
use crate::error_reports::civil_from_days_spec;
use crate::messages::{
    as_u32, from_log_line_spec, local_fits, local_stamp, log_fields, log_line_spec, offset_fits,
    severity_from_token, severity_token, source_from_token, source_token, timestamp_local,
    Severity, Source,
};
use crate::text::{
    is_ws, lemma_find_char_at, lemma_trim_start_no_ws, lemma_trim_start_ws_prefix,
    lemma_zero_padded_parse, pad_right, pow10, split_once, trim_start, zero_padded,
};
use vstd::prelude::*;

verus! {

/// The source a log line can name: decks beyond the third are logged as the third.
pub open spec fn canonical_source(s: Source) -> Source {
    match s {
        Source::Deck(n) => if n <= 2 {
            Source::Deck(n)
        } else {
            Source::Deck(2)
        },
        _ => s,
    }
}

/// A token is non-empty, at most `max` characters, and holds no whitespace.
pub open spec fn plain_token(t: Seq<char>, max: int) -> bool {
    &&& 1 <= t.len() <= max
    &&& forall|i: int| 0 <= i < t.len() ==> !is_ws(#[trigger] t[i])
}

pub proof fn lemma_severity_token(s: Severity)
    ensures
        plain_token(severity_token(s), 5),
        severity_from_token(severity_token(s)) == Some(s),
{
    let t = severity_token(s);
    let info = severity_token(Severity::Info);
    let ok = severity_token(Severity::Success);
    let warn = severity_token(Severity::Warning);
    let err = severity_token(Severity::Error);
    assert(info[0] != warn[0] && info.len() != ok.len() && info.len() != err.len());
    assert(ok.len() != warn.len() && ok.len() != err.len() && warn.len() != err.len());
    assert(forall|i: int| 0 <= i < t.len() ==> !is_ws(#[trigger] t[i]));
}

pub proof fn lemma_source_token(s: Source)
    ensures
        plain_token(source_token(s), 8),
        source_from_token(source_token(s)) == Some(canonical_source(s)),
{
    let t = source_token(s);
    let d1 = source_token(Source::Deck(0));
    let d2 = source_token(Source::Deck(1));
    let d3 = source_token(Source::Deck(2));
    let pl = source_token(Source::Playlist);
    let tg = source_token(Source::Tags);
    let fl = source_token(Source::Files);
    let ap = source_token(Source::App);
    assert(d1[4] != d2[4] && d1[4] != d3[4] && d2[4] != d3[4]);
    assert(d1.len() != pl.len() && d1.len() != tg.len() && d1[0] != fl[0] && d1.len() != ap.len());
    assert(pl.len() != tg.len() && pl.len() != fl.len() && pl.len() != ap.len());
    assert(tg.len() != fl.len() && tg.len() != ap.len() && fl.len() != ap.len());
    assert(forall|i: int| 0 <= i < t.len() ==> !is_ws(#[trigger] t[i]));
}

/// Splitting `tok + spaces + rest` at its first space gives the token, and
/// the remainder trims to `rest` when `rest` does not begin with whitespace.
proof fn lemma_split_token(tok: Seq<char>, width: int, extra: int, rest: Seq<char>)
    requires
        plain_token(tok, width),
        extra >= 1,
        rest.len() > 0 ==> !is_ws(rest[0]),
    ensures
        ({
            let a = pad_right(tok, width) + Seq::new(extra as nat, |_i: int| ' ') + rest;
            &&& split_once(a, ' ') matches Some((t, r)) && t == tok && trim_start(r) == rest
            &&& trim_start(a) == a
        }),
{
    let k = tok.len() as int;
    let sp = Seq::new((width - k) as nat, |_i: int| ' ');
    let a = pad_right(tok, width) + Seq::new(extra as nat, |_i: int| ' ') + rest;
    assert(pad_right(tok, width) =~= tok + sp);
    assert(a[k] == ' ');
    assert forall|j: int| 0 <= j < k implies a[j] != ' ' by {
        assert(a[j] == tok[j]);
        assert(!is_ws(tok[j]));
    }
    lemma_find_char_at(a, ' ', k);
    assert(a.take(k) =~= tok);
    let w = Seq::new((width - k + extra - 1) as nat, |_i: int| ' ');
    assert(a.skip(k + 1) =~= w + rest);
    assert forall|i: int| 0 <= i < w.len() implies is_ws(#[trigger] w[i]) by {}
    lemma_trim_start_ws_prefix(w, rest);
    lemma_trim_start_no_ws(rest);
    assert(a[0] == tok[0]);
    lemma_trim_start_no_ws(a);
}

/// The stamp of a time whose year has four digits is 19 ASCII characters
/// that parse back to that time.
pub proof fn lemma_local_stamp_parses(local: int)
    requires
        0 <= civil_from_days_spec(local / 86400).0 <= 9999,
    ensures
        local_stamp(local).len() == 19,
        forall|i: int| 0 <= i < 19 ==> (#[trigger] local_stamp(local)[i] as u32) < 128,
        timestamp_local(local_stamp(local)) == Some(local),
{
    let days = local / 86400;
    let t = local % 86400;
    vstd::arithmetic::div_mod::lemma_fundamental_div_mod(local, 86400);
    vstd::arithmetic::div_mod::lemma_mod_bound(local, 86400);
    let (y, m, d) = civil_from_days_spec(days);
    lemma_civil_ranges(days);
    let h = t / 3600;
    let r1 = t % 3600;
    let mi = r1 / 60;
    let s = r1 % 60;
    vstd::arithmetic::div_mod::lemma_fundamental_div_mod(t, 3600);
    vstd::arithmetic::div_mod::lemma_mod_bound(t, 3600);
    vstd::arithmetic::div_mod::lemma_fundamental_div_mod(r1, 60);
    vstd::arithmetic::div_mod::lemma_mod_bound(r1, 60);
    vstd::arithmetic::div_mod::lemma_fundamental_div_mod_converse(t, 60, h * 60 + mi, s);
    assert(t % 60 == s);
    assert(0 <= h < 24);
    reveal_with_fuel(pow10, 5);
    lemma_zero_padded_parse(y, 4);
    lemma_zero_padded_parse(m, 2);
    lemma_zero_padded_parse(d, 2);
    lemma_zero_padded_parse(h, 2);
    lemma_zero_padded_parse(mi, 2);
    lemma_zero_padded_parse(s, 2);
    let zy = zero_padded(y, 4);
    let zm = zero_padded(m, 2);
    let zd = zero_padded(d, 2);
    let zh = zero_padded(h, 2);
    let zmi = zero_padded(mi, 2);
    let zs = zero_padded(s, 2);
    let p = local_stamp(local);
    assert(p =~= zy + seq!['-'] + zm + seq!['-'] + zd + seq![' '] + zh + seq![':'] + zmi + seq![
        ':',
    ] + zs);
    assert(p.subrange(0, 4) =~= zy);
    assert(p.subrange(5, 7) =~= zm);
    assert(p.subrange(8, 10) =~= zd);
    assert(p.subrange(11, 13) =~= zh);
    assert(p.subrange(14, 16) =~= zmi);
    assert(p.subrange(17, 19) =~= zs);
    assert forall|i: int| 0 <= i < 19 implies (#[trigger] p[i] as u32) < 128 by {
        if i < 4 {
            assert(p[i] == zy[i]);
        } else if 5 <= i < 7 {
            assert(p[i] == zm[i - 5]);
        } else if 8 <= i < 10 {
            assert(p[i] == zd[i - 8]);
        } else if 11 <= i < 13 {
            assert(p[i] == zh[i - 11]);
        } else if 14 <= i < 16 {
            assert(p[i] == zmi[i - 14]);
        } else if 17 <= i < 19 {
            assert(p[i] == zs[i - 17]);
        }
    }
    lemma_days_from_civil_inverts(days);
    assert(as_u32(m) == m && as_u32(d) == d);
}

/// The fields after the stamp trim, split and trim back into the tokens and text.
pub proof fn lemma_log_fields_split(severity: Severity, source: Source, text: Seq<char>)
    requires
        text.len() > 0 ==> !is_ws(text[0]),
    ensures
        ({
            let rest = trim_start(log_fields(severity, source, text));
            &&& split_once(rest, ' ') matches Some((sev_tok, rest2)) && {
                let rest3 = trim_start(rest2);
                &&& sev_tok == severity_token(severity)
                &&& split_once(rest3, ' ') matches Some((src_tok, tail)) && src_tok == source_token(
                    source,
                ) && trim_start(tail) == text
            }
        }),
{
    let sev = severity_token(severity);
    let src = source_token(source);
    lemma_severity_token(severity);
    lemma_source_token(source);
    let b = pad_right(src, 8) + Seq::new(2, |_i: int| ' ') + text;
    let a = pad_right(sev, 5) + Seq::new(1, |_i: int| ' ') + b;
    assert(log_fields(severity, source, text) =~= seq![' '] + a);
    lemma_split_token(src, 8, 2, text);
    lemma_split_token(sev, 5, 1, b);
    assert(src[0] == b[0]);
    lemma_trim_start_ws_prefix(seq![' '], a);
}

/// A line written by `log_line` parses back to the event: the same time,
/// severity and text, and the source its token names. This holds whenever
/// the year is written in four digits, the time fits a signed count and the
/// text does not begin with whitespace (which parsing trims).
pub proof fn lemma_log_line_roundtrip(
    at: u64,
    severity: Severity,
    source: Source,
    text: Seq<char>,
    off: i64,
)
    requires
        at <= 0x7fff_ffff_ffff_ffffu64,
        local_fits(at, off),
        0 <= civil_from_days_spec((at + off) / 86400).0 <= 9999,
        text.len() > 0 ==> !is_ws(text[0]),
    ensures
        offset_fits(log_line_spec(at, severity, source, text, off), off as int),
        from_log_line_spec(log_line_spec(at, severity, source, text, off), off as int) == Some(
            (at, severity, canonical_source(source), text),
        ),
{
    let local = at + off;
    assert((at as i64) as int == at);
    let p = local_stamp(local);
    let f = log_fields(severity, source, text);
    lemma_local_stamp_parses(local);
    lemma_log_fields_split(severity, source, text);
    lemma_severity_token(severity);
    lemma_source_token(source);
    let line = log_line_spec(at, severity, source, text, off);
    assert(line == p + f);
    assert(line.take(19) =~= p);
    assert(line.skip(19) =~= f);
    assert forall|i: int| 0 <= i < 19 implies (#[trigger] line[i] as u32) < 128 by {
        assert(line[i] == p[i]);
    }
}

} // verus!
