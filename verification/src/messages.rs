//! The application's messages: events and hints. Every event passes through
//! one sink and is appended to an in-memory log (and, when one is attached,
//! the log file), so an event leaving the screen is not lost. Hints are
//! transient guidance, displayed and forgotten.
//!
//! The log file holds one line per event:
//! `YYYY-MM-DD HH:MM:SS <severity> <source>  <text>`, in local time.

use crate::error_reports::{civil_from_days, civil_from_days_spec};
use crate::text::{
    chars_eq, chars_of, find_char_from, pad_right, parse_i64_range, parse_int, push_chars,
    push_padded_right, push_zero_padded, skip_whitespace, split_once, string_of,
    string_of_range, trim_start, zero_padded, digit_value, digits_value,
};
use vstd::prelude::*;

verus! {

#[derive(Clone, Copy, PartialEq, Eq, Structural, Debug)]
pub enum Severity {
    Info,
    Success,
    Warning,
    Error,
}

pub open spec fn severity_token(s: Severity) -> Seq<char> {
    match s {
        Severity::Info => seq!['i', 'n', 'f', 'o'],
        Severity::Success => seq!['o', 'k'],
        Severity::Warning => seq!['w', 'a', 'r', 'n'],
        Severity::Error => seq!['e', 'r', 'r', 'o', 'r'],
    }
}

pub open spec fn severity_from_token(t: Seq<char>) -> Option<Severity> {
    if t == severity_token(Severity::Info) {
        Some(Severity::Info)
    } else if t == severity_token(Severity::Success) {
        Some(Severity::Success)
    } else if t == severity_token(Severity::Warning) {
        Some(Severity::Warning)
    } else if t == severity_token(Severity::Error) {
        Some(Severity::Error)
    } else {
        None
    }
}

fn severity_chars(s: Severity) -> (r: Vec<char>)
    ensures
        r@ == severity_token(s),
{
    match s {
        Severity::Info => vec!['i', 'n', 'f', 'o'],
        Severity::Success => vec!['o', 'k'],
        Severity::Warning => vec!['w', 'a', 'r', 'n'],
        Severity::Error => vec!['e', 'r', 'r', 'o', 'r'],
    }
}

impl Severity {
    pub fn token(self) -> (r: &'static str)
        ensures
            r@ == severity_token(self),
    {
        match self {
            Severity::Info => {
                proof {
                    reveal_strlit("info");
                }
                "info"
            },
            Severity::Success => {
                proof {
                    reveal_strlit("ok");
                }
                "ok"
            },
            Severity::Warning => {
                proof {
                    reveal_strlit("warn");
                }
                "warn"
            },
            Severity::Error => {
                proof {
                    reveal_strlit("error");
                }
                "error"
            },
        }
    }

    pub fn from_token(token: &str) -> (r: Option<Self>)
        ensures
            r == severity_from_token(token@),
    {
        severity_from_chars(&chars_of(token))
    }
}

fn severity_from_chars(t: &[char]) -> (r: Option<Severity>)
    ensures
        r == severity_from_token(t@),
{
    if chars_eq(t, &severity_chars(Severity::Info)) {
        Some(Severity::Info)
    } else if chars_eq(t, &severity_chars(Severity::Success)) {
        Some(Severity::Success)
    } else if chars_eq(t, &severity_chars(Severity::Warning)) {
        Some(Severity::Warning)
    } else if chars_eq(t, &severity_chars(Severity::Error)) {
        Some(Severity::Error)
    } else {
        None
    }
}

/// What a message concerns.
#[derive(Clone, Copy, PartialEq, Eq, Structural, Debug)]
pub enum Source {
    Deck(usize),
    Playlist,
    Tags,
    Files,
    App,
}

pub open spec fn source_token(s: Source) -> Seq<char> {
    match s {
        Source::Deck(n) => if n == 0 {
            seq!['d', 'e', 'c', 'k', '1']
        } else if n == 1 {
            seq!['d', 'e', 'c', 'k', '2']
        } else {
            seq!['d', 'e', 'c', 'k', '3']
        },
        Source::Playlist => seq!['p', 'l', 'a', 'y', 'l', 'i', 's', 't'],
        Source::Tags => seq!['t', 'a', 'g', 's'],
        Source::Files => seq!['f', 'i', 'l', 'e', 's'],
        Source::App => seq!['a', 'p', 'p'],
    }
}

pub open spec fn source_from_token(t: Seq<char>) -> Option<Source> {
    if t == source_token(Source::Deck(0)) {
        Some(Source::Deck(0))
    } else if t == source_token(Source::Deck(1)) {
        Some(Source::Deck(1))
    } else if t == source_token(Source::Deck(2)) {
        Some(Source::Deck(2))
    } else if t == source_token(Source::Playlist) {
        Some(Source::Playlist)
    } else if t == source_token(Source::Tags) {
        Some(Source::Tags)
    } else if t == source_token(Source::Files) {
        Some(Source::Files)
    } else if t == source_token(Source::App) {
        Some(Source::App)
    } else {
        None
    }
}

fn source_chars(s: Source) -> (r: Vec<char>)
    ensures
        r@ == source_token(s),
{
    match s {
        Source::Deck(0) => vec!['d', 'e', 'c', 'k', '1'],
        Source::Deck(1) => vec!['d', 'e', 'c', 'k', '2'],
        Source::Deck(_) => vec!['d', 'e', 'c', 'k', '3'],
        Source::Playlist => vec!['p', 'l', 'a', 'y', 'l', 'i', 's', 't'],
        Source::Tags => vec!['t', 'a', 'g', 's'],
        Source::Files => vec!['f', 'i', 'l', 'e', 's'],
        Source::App => vec!['a', 'p', 'p'],
    }
}

fn source_from_chars(t: &[char]) -> (r: Option<Source>)
    ensures
        r == source_from_token(t@),
{
    if chars_eq(t, &source_chars(Source::Deck(0))) {
        Some(Source::Deck(0))
    } else if chars_eq(t, &source_chars(Source::Deck(1))) {
        Some(Source::Deck(1))
    } else if chars_eq(t, &source_chars(Source::Deck(2))) {
        Some(Source::Deck(2))
    } else if chars_eq(t, &source_chars(Source::Playlist)) {
        Some(Source::Playlist)
    } else if chars_eq(t, &source_chars(Source::Tags)) {
        Some(Source::Tags)
    } else if chars_eq(t, &source_chars(Source::Files)) {
        Some(Source::Files)
    } else if chars_eq(t, &source_chars(Source::App)) {
        Some(Source::App)
    } else {
        None
    }
}

impl Source {
    pub fn token(self) -> (r: &'static str)
        ensures
            r@ == source_token(self),
    {
        match self {
            Source::Deck(0) => {
                proof {
                    reveal_strlit("deck1");
                }
                "deck1"
            },
            Source::Deck(1) => {
                proof {
                    reveal_strlit("deck2");
                }
                "deck2"
            },
            Source::Deck(_) => {
                proof {
                    reveal_strlit("deck3");
                }
                "deck3"
            },
            Source::Playlist => {
                proof {
                    reveal_strlit("playlist");
                }
                "playlist"
            },
            Source::Tags => {
                proof {
                    reveal_strlit("tags");
                }
                "tags"
            },
            Source::Files => {
                proof {
                    reveal_strlit("files");
                }
                "files"
            },
            Source::App => {
                proof {
                    reveal_strlit("app");
                }
                "app"
            },
        }
    }

    pub fn from_token(token: &str) -> (r: Option<Self>)
        ensures
            r == source_from_token(token@),
    {
        source_from_chars(&chars_of(token))
    }
}

/// One message: when it happened (whole seconds since the Unix epoch), how
/// serious it is, what it concerns, and its single-line text.
pub struct Event {
    pub at: u64,
    pub severity: Severity,
    pub source: Source,
    pub text: String,
}

/// `text` with every line break (`\n`, `\r`) turned into a space.
pub open spec fn single_line(text: Seq<char>) -> Seq<char> {
    text.map_values(|c: char| if c == '\n' || c == '\r' { ' ' } else { c })
}

impl Event {
    /// An event at `at`, its text made single-line so the log file stays one
    /// line per message.
    pub fn new_at(at: u64, source: Source, severity: Severity, text: &str) -> (r: Self)
        ensures
            r.at == at,
            r.source == source,
            r.severity == severity,
            r.text@ == single_line(text@),
    {
        let v = chars_of(text);
        let mut out: Vec<char> = Vec::new();
        let mut i: usize = 0;
        while i < v.len()
            invariant
                i <= v@.len(),
                out@ == single_line(v@.take(i as int)),
            decreases v.len() - i,
        {
            let c = v[i];
            out.push(
                if c == '\n' || c == '\r' {
                    ' '
                } else {
                    c
                },
            );
            assert(out@ =~= single_line(v@.take(i + 1)));
            i = i + 1;
        }
        assert(v@.take(v@.len() as int) =~= v@);
        Event { at, severity, source, text: string_of(&out) }
    }

    /// An event happening now.
    pub fn new(source: Source, severity: Severity, text: &str) -> (r: Self)
        ensures
            r.source == source,
            r.severity == severity,
            r.text@ == single_line(text@),
    {
        Event::new_at(crate::error_reports::now_unix(), source, severity, text)
    }

    /// The file form: `YYYY-MM-DD HH:MM:SS <severity> <source>  <text>`, in
    /// the local time `utc_offset_secs` from UTC.
    pub fn log_line(&self, utc_offset_secs: i64) -> (r: String)
        requires
            local_fits(self.at, utc_offset_secs),
        ensures
            r@ == log_line_spec(self.at, self.severity, self.source, self.text@, utc_offset_secs),
    {
        let unix = self.at as i64;
        let local = unix + utc_offset_secs;
        let mut out: Vec<char> = Vec::new();
        push_local_stamp(&mut out, local);
        out.push(' ');
        push_padded_right(&mut out, &severity_chars(self.severity), 5);
        out.push(' ');
        push_padded_right(&mut out, &source_chars(self.source), 8);
        out.push(' ');
        out.push(' ');
        push_chars(&mut out, &chars_of(self.text.as_str()));
        assert(out@ =~= log_line_spec(
            self.at,
            self.severity,
            self.source,
            self.text@,
            utc_offset_secs,
        ));
        string_of(&out)
    }

    /// Parse a [`log_line`](Self::log_line) back; `None` for lines that don't conform.
    pub fn from_log_line(line: &str, utc_offset_secs: i64) -> (r: Option<Self>)
        requires
            offset_fits(line@, utc_offset_secs as int),
        ensures
            match from_log_line_spec(line@, utc_offset_secs as int) {
                None => r is None,
                Some((at, severity, source, text)) => r matches Some(e) && e.at == at
                    && e.severity == severity && e.source == source && e.text@ == text,
            },
    {
        let v = chars_of(line);
        if v.len() < 19 || !ascii_prefix(&v, 19) {
            return None;
        }
        let at = match parse_local_timestamp(&v, utc_offset_secs) {
            Some(t) => t,
            None => return None,
        };
        let rest = skip_whitespace(&v, 19);
        proof {
            assert(v@.skip(19).skip(rest - 19) =~= v@.skip(rest as int));
        }
        let sp = find_char_from(&v, rest, ' ');
        if sp >= v.len() {
            return None;
        }
        let ghost after_ts = trim_start(v@.skip(19));
        assert(after_ts =~= v@.skip(rest as int));
        assert(v@.skip(rest as int).take(sp - rest) =~= v@.subrange(rest as int, sp as int));
        assert(v@.skip(rest as int).skip(sp - rest + 1) =~= v@.skip(sp + 1));
        let sev_tok = chars_slice(&v, rest, sp);
        let rest3 = skip_whitespace(&v, sp + 1);
        let sp2 = find_char_from(&v, rest3, ' ');
        let (src_end, text_start) = if sp2 < v.len() {
            (sp2, sp2 + 1)
        } else {
            (v.len(), v.len())
        };
        assert(v@.skip(rest3 as int).take(sp2 - rest3) =~= v@.subrange(rest3 as int, sp2 as int));
        proof {
            if sp2 < v@.len() {
                assert(v@.skip(rest3 as int).skip(sp2 - rest3 + 1) =~= v@.skip(sp2 + 1));
            }
        }
        assert(v@.skip(v@.len() as int) =~= Seq::<char>::empty());
        assert(v@.subrange(rest3 as int, v@.len() as int) =~= v@.skip(rest3 as int));
        let src_tok = chars_slice(&v, rest3, src_end);
        let text_from = skip_whitespace(&v, text_start);
        let severity = match severity_from_chars(&sev_tok) {
            Some(s) => s,
            None => return None,
        };
        let source = match source_from_chars(&src_tok) {
            Some(s) => s,
            None => return None,
        };
        let text = string_of_range(&v, text_from, v.len());
        assert(v@.subrange(text_from as int, v@.len() as int) =~= v@.skip(text_from as int));
        Some(Event { at, severity, source, text })
    }

    /// The text as displayed: deck messages name their deck.
    pub fn display_text(&self) -> (r: String)
        requires
            self.source matches Source::Deck(slot) ==> slot < usize::MAX,
        ensures
            r@ == display_text_spec(self.source, self.text@),
    {
        match self.source {
            Source::Deck(slot) => {
                let mut out: Vec<char> = vec!['D', 'e', 'c', 'k', ' '];
                crate::text::push_decimal(&mut out, (slot + 1) as u64);
                out.push(':');
                out.push(' ');
                push_chars(&mut out, &chars_of(self.text.as_str()));
                assert(out@ =~= display_text_spec(self.source, self.text@));
                string_of(&out)
            },
            _ => {
                let v = chars_of(self.text.as_str());
                string_of(&v)
            },
        }
    }

    /// `HH:MM:SS` local clock time, given the zone offset from UTC.
    pub fn clock_time(&self, utc_offset_secs: i64) -> (r: String)
        requires
            local_fits(self.at, utc_offset_secs),
        ensures
            r@ == clock_time_spec(self.at, utc_offset_secs),
    {
        let unix = self.at as i64;
        let (_days, local) = div_rem_day(unix + utc_offset_secs);
        let mut out: Vec<char> = Vec::new();
        push_zero_padded(&mut out, local / 3600, 2);
        out.push(':');
        push_zero_padded(&mut out, (local % 3600) / 60, 2);
        out.push(':');
        push_zero_padded(&mut out, local % 60, 2);
        assert(out@ =~= clock_time_spec(self.at, utc_offset_secs));
        string_of(&out)
    }
}

pub open spec fn display_text_spec(source: Source, text: Seq<char>) -> Seq<char> {
    match source {
        Source::Deck(slot) => seq!['D', 'e', 'c', 'k', ' '] + crate::text::decimal(
            (slot + 1) as nat,
        ) + seq![':', ' '] + text,
        _ => text,
    }
}

/// Local time `at + utc_offset_secs` (with `at` read as a signed count, as
/// `as i64` reads it) does not overflow.
pub open spec fn local_fits(at: u64, utc_offset_secs: i64) -> bool {
    i64::MIN <= (at as i64) + utc_offset_secs <= i64::MAX
}

pub open spec fn clock_time_spec(at: u64, off: i64) -> Seq<char> {
    let local = ((at as i64) + off) % 86400;
    zero_padded(local / 3600, 2) + seq![':'] + zero_padded((local % 3600) / 60, 2) + seq![':']
        + zero_padded(local % 60, 2)
}

/// `YYYY-MM-DD HH:MM:SS` for `local` seconds after the epoch.
pub open spec fn local_stamp(local: int) -> Seq<char> {
    let (year, month, day) = civil_from_days_spec(local / 86400);
    let t = local % 86400;
    zero_padded(year, 4) + seq!['-'] + zero_padded(month, 2) + seq!['-'] + zero_padded(day, 2)
        + seq![' '] + zero_padded(t / 3600, 2) + seq![':'] + zero_padded((t % 3600) / 60, 2)
        + seq![':'] + zero_padded(t % 60, 2)
}

/// What follows the stamp: the padded severity and source tokens, then the text.
pub open spec fn log_fields(severity: Severity, source: Source, text: Seq<char>) -> Seq<char> {
    seq![' '] + pad_right(severity_token(severity), 5) + seq![' '] + pad_right(
        source_token(source),
        8,
    ) + seq![' ', ' '] + text
}

pub open spec fn log_line_spec(
    at: u64,
    severity: Severity,
    source: Source,
    text: Seq<char>,
    off: i64,
) -> Seq<char> {
    local_stamp((at as i64) + off) + log_fields(severity, source, text)
}

pub open spec fn date_text(days: int) -> Seq<char> {
    let (year, month, day) = civil_from_days_spec(days);
    zero_padded(year, 4) + seq!['-'] + zero_padded(month, 2) + seq!['-'] + zero_padded(day, 2)
}

pub open spec fn time_text(t: int) -> Seq<char> {
    zero_padded(t / 3600, 2) + seq![':'] + zero_padded((t % 3600) / 60, 2) + seq![':']
        + zero_padded(t % 60, 2)
}

fn push_date(out: &mut Vec<char>, days: i64)
    requires
        days <= i64::MAX - 719_468,
    ensures
        final(out)@ == old(out)@ + date_text(days as int),
{
    let (year, month, day) = civil_from_days(days);
    push_zero_padded(out, year, 4);
    out.push('-');
    push_zero_padded(out, month as i64, 2);
    out.push('-');
    push_zero_padded(out, day as i64, 2);
    assert(out@ =~= old(out)@ + date_text(days as int));
}

fn push_time(out: &mut Vec<char>, t: i64)
    requires
        0 <= t < 86400,
    ensures
        final(out)@ == old(out)@ + time_text(t as int),
{
    push_zero_padded(out, t / 3600, 2);
    out.push(':');
    push_zero_padded(out, (t % 3600) / 60, 2);
    out.push(':');
    push_zero_padded(out, t % 60, 2);
    assert(out@ =~= old(out)@ + time_text(t as int));
}

fn push_local_stamp(out: &mut Vec<char>, local: i64)
    ensures
        final(out)@ == old(out)@ + local_stamp(local as int),
{
    let (days, t) = div_rem_day(local);
    push_date(out, days);
    out.push(' ');
    push_time(out, t);
    assert(local_stamp(local as int) =~= date_text(days as int) + seq![' '] + time_text(t as int));
    assert(out@ =~= old(out)@ + local_stamp(local as int));
}

/// Floor division and Euclidean remainder of `x` by the day length.
fn div_rem_day(x: i64) -> (r: (i64, i64))
    ensures
        r.0 as int == x as int / 86400,
        r.1 as int == x as int % 86400,
        0 <= r.1 < 86400,
{
    proof {
        vstd::arithmetic::div_mod::lemma_mod_bound(x as int, 86400);
    }
    if x >= 0 {
        (x / 86_400, x % 86_400)
    } else {
        let m: u64 = (-(x + 1)) as u64;
        let q: i64 = -((m / 86_400) as i64) - 1;
        let r: i64 = 86_399 - (m % 86_400) as i64;
        proof {
            vstd::arithmetic::div_mod::lemma_fundamental_div_mod(m as int, 86400);
            vstd::arithmetic::div_mod::lemma_mod_bound(m as int, 86400);
            vstd::arithmetic::div_mod::lemma_fundamental_div_mod_converse(x as int, 86400, q as int, r as int);
        }
        (q, r)
    }
}

// ---------------------------------------------------------------------------
// Parsing timestamps
// ---------------------------------------------------------------------------

/// Unix day number of a calendar date, the inverse of `civil_from_days`
/// (Howard Hinnant's `days_from_civil`), with floor divisions.
pub open spec fn days_from_civil_spec(year: int, month: int, day: int) -> int {
    let y = year - if month <= 2 {
        1int
    } else {
        0int
    };
    let era = y / 400;
    let yoe = y - era * 400;
    let mp = if month > 2 {
        month - 3
    } else {
        month + 9
    };
    let doy = (153 * mp + 2) / 5 + day - 1;
    let doe = yoe * 365 + yoe / 4 - yoe / 100 + doy;
    era * 146097 + doe - 719468
}

/// The intermediate values of `days_from_civil` fit in `i64`.
pub open spec fn days_from_civil_fits(year: int, month: int, day: int) -> bool {
    let y = year - if month <= 2 {
        1int
    } else {
        0int
    };
    let era = y / 400;
    let yoe = y - era * 400;
    let mp = if month > 2 {
        month - 3
    } else {
        month + 9
    };
    let doy = (153 * mp + 2) / 5 + day - 1;
    let doe = yoe * 365 + yoe / 4 - yoe / 100 + doy;
    &&& i64::MIN + 400 <= year
    &&& i64::MIN <= era * 146097 <= i64::MAX
    &&& era * 146097 + doe <= i64::MAX
    &&& i64::MIN <= era * 146097 + doe - 719468
}

/// Unix day number from a calendar date. Howard Hinnant's `days_from_civil` —
/// the inverse of [`crate::error_reports::civil_from_days`].
pub fn days_from_civil(year: i64, month: u32, day: u32) -> (r: i64)
    requires
        days_from_civil_fits(year as int, month as int, day as int),
    ensures
        r as int == days_from_civil_spec(year as int, month as int, day as int),
{
    let year = year - if month <= 2 {
        1
    } else {
        0
    };
    let era: i64 = if year >= 0 {
        year / 400
    } else {
        let q: i64 = (399 - year) / 400;
        proof {
            vstd::arithmetic::div_mod::lemma_fundamental_div_mod(399 - year, 400);
            vstd::arithmetic::div_mod::lemma_mod_bound(399 - year, 400);
            vstd::arithmetic::div_mod::lemma_fundamental_div_mod_converse(
                year as int,
                400,
                -q,
                year + q * 400,
            );
        }
        -q
    };
    proof {
        vstd::arithmetic::div_mod::lemma_fundamental_div_mod(year as int, 400);
        vstd::arithmetic::div_mod::lemma_mod_bound(year as int, 400);
    }
    let year_of_era = year - era * 400;
    let month_part = (if month > 2 {
        month - 3
    } else {
        month + 9
    }) as i64;
    let day_of_year = (153 * month_part + 2) / 5 + day as i64 - 1;
    let day_of_era = year_of_era * 365 + year_of_era / 4 - year_of_era / 100 + day_of_year;
    era * 146_097 + day_of_era - 719_468
}

/// A signed count read as `u32`, wrapping as `as u32` does.
pub open spec fn as_u32(x: int) -> int {
    if x < 0 {
        x + 4294967296
    } else {
        x
    }
}

/// The local seconds a `YYYY-MM-DD HH:MM:SS` stamp denotes, when every field
/// parses as an integer.
pub open spec fn timestamp_local(s: Seq<char>) -> Option<int> {
    if s.len() == 19 && s[4] == '-' && s[7] == '-' && s[10] == ' ' && s[13] == ':' && s[16] == ':' {
        match (
            parse_int(s.subrange(0, 4)),
            parse_int(s.subrange(5, 7)),
            parse_int(s.subrange(8, 10)),
            parse_int(s.subrange(11, 13)),
            parse_int(s.subrange(14, 16)),
            parse_int(s.subrange(17, 19)),
        ) {
            (Some(y), Some(mo), Some(d), Some(h), Some(mi), Some(se)) => Some(
                days_from_civil_spec(y, as_u32(mo), as_u32(d)) * 86400 + h * 3600 + mi * 60 + se,
            ),
            _ => None,
        }
    } else {
        None
    }
}

/// The first 19 characters of a line are ASCII.
pub open spec fn ascii_head(s: Seq<char>) -> bool {
    s.len() >= 19 && forall|i: int| 0 <= i < 19 ==> (#[trigger] s[i] as u32) < 128
}

/// The offset keeps the stamp of `line` within `i64`; otherwise converting
/// it would overflow.
pub open spec fn offset_fits(line: Seq<char>, off: int) -> bool {
    ascii_head(line) ==> (timestamp_local(line.take(19)) matches Some(l) ==> i64::MIN <= l - off
        <= i64::MAX)
}

/// A parsed line: its time (seconds since the epoch), severity, source and text.
pub open spec fn from_log_line_spec(line: Seq<char>, off: int) -> Option<
    (u64, Severity, Source, Seq<char>),
> {
    if !ascii_head(line) {
        None
    } else {
        match timestamp_local(line.take(19)) {
            None => None,
            Some(l) => if l - off < 0 {
                None
            } else {
                let rest = trim_start(line.skip(19));
                match split_once(rest, ' ') {
                    None => None,
                    Some((sev_tok, rest2)) => {
                        let rest3 = trim_start(rest2);
                        let (src_tok, text) = match split_once(rest3, ' ') {
                            Some(p) => p,
                            None => (rest3, Seq::<char>::empty()),
                        };
                        match (severity_from_token(sev_tok), source_from_token(src_tok)) {
                            (Some(sv), Some(sr)) => Some(((l - off) as u64, sv, sr, trim_start(text))),
                            _ => None,
                        }
                    },
                }
            },
        }
    }
}

fn ascii_prefix(v: &[char], n: usize) -> (r: bool)
    requires
        n <= v@.len(),
    ensures
        r == forall|i: int| 0 <= i < n ==> (#[trigger] v@[i] as u32) < 128,
{
    let mut i: usize = 0;
    while i < n
        invariant
            i <= n <= v@.len(),
            forall|j: int| 0 <= j < i ==> (#[trigger] v@[j] as u32) < 128,
        decreases n - i,
    {
        if v[i] as u32 >= 128 {
            return false;
        }
        i = i + 1;
    }
    true
}

fn chars_slice(v: &[char], from: usize, to: usize) -> (r: Vec<char>)
    requires
        from <= to <= v@.len(),
    ensures
        r@ == v@.subrange(from as int, to as int),
{
    let mut out: Vec<char> = Vec::new();
    let mut i = from;
    while i < to
        invariant
            from <= i <= to <= v@.len(),
            out@ == v@.subrange(from as int, i as int),
        decreases to - i,
    {
        out.push(v[i]);
        assert(out@ =~= v@.subrange(from as int, i + 1));
        i = i + 1;
    }
    out
}

proof fn lemma_days_fit(y: int, mo: int, d: int)
    requires
        -999 <= y <= 9999,
        0 <= mo < 4294967296,
        0 <= d < 4294967296,
    ensures
        days_from_civil_fits(y, mo, d),
        -1_000_000_000_000 <= days_from_civil_spec(y, mo, d) <= 1_000_000_000_000,
{
    let yy = y - if mo <= 2 {
        1int
    } else {
        0int
    };
    let era = yy / 400;
    vstd::arithmetic::div_mod::lemma_fundamental_div_mod(yy, 400);
    vstd::arithmetic::div_mod::lemma_mod_bound(yy, 400);
    assert(-3 <= era <= 25);
    let mp = if mo > 2 {
        mo - 3
    } else {
        mo + 9
    };
    assert((153 * mp + 2) / 5 <= 153 * mp + 2) by (nonlinear_arith)
        requires
            mp >= 0,
    ;
    assert((153 * mp + 2) / 5 >= 0) by (nonlinear_arith)
        requires
            mp >= 0,
    ;
    let yoe = yy - era * 400;
    assert(yoe / 4 <= yoe && yoe / 100 >= 0) by (nonlinear_arith)
        requires
            0 <= yoe,
    ;
}

/// `YYYY-MM-DD HH:MM:SS` in local time, back to seconds since the epoch.
fn parse_local_timestamp(v: &[char], utc_offset_secs: i64) -> (r: Option<u64>)
    requires
        ascii_head(v@),
        offset_fits(v@, utc_offset_secs as int),
    ensures
        r == match timestamp_local(v@.take(19)) {
            Some(l) => if l - utc_offset_secs < 0 {
                None
            } else {
                Some((l - utc_offset_secs) as u64)
            },
            None => None::<u64>,
        },
{
    let ghost s = v@.take(19);
    assert(s[4] == v@[4] && s[7] == v@[7] && s[10] == v@[10] && s[13] == v@[13] && s[16]
        == v@[16]);
    if v[4] != '-' || v[7] != '-' || v[10] != ' ' || v[13] != ':' || v[16] != ':' {
        return None;
    }
    assert(s.subrange(0, 4) =~= v@.subrange(0, 4));
    assert(s.subrange(5, 7) =~= v@.subrange(5, 7));
    assert(s.subrange(8, 10) =~= v@.subrange(8, 10));
    assert(s.subrange(11, 13) =~= v@.subrange(11, 13));
    assert(s.subrange(14, 16) =~= v@.subrange(14, 16));
    assert(s.subrange(17, 19) =~= v@.subrange(17, 19));
    let year = match parse_i64_range(v, 0, 4) {
        Some(x) => x,
        None => return None,
    };
    let month = match parse_i64_range(v, 5, 7) {
        Some(x) => x,
        None => return None,
    };
    let day = match parse_i64_range(v, 8, 10) {
        Some(x) => x,
        None => return None,
    };
    let hour = match parse_i64_range(v, 11, 13) {
        Some(x) => x,
        None => return None,
    };
    let minute = match parse_i64_range(v, 14, 16) {
        Some(x) => x,
        None => return None,
    };
    let second = match parse_i64_range(v, 17, 19) {
        Some(x) => x,
        None => return None,
    };
    proof {
        lemma_parse_int_small(v@.subrange(0, 4));
        lemma_parse_int_small(v@.subrange(5, 7));
        lemma_parse_int_small(v@.subrange(8, 10));
        lemma_parse_int_small(v@.subrange(11, 13));
        lemma_parse_int_small(v@.subrange(14, 16));
        lemma_parse_int_small(v@.subrange(17, 19));
        lemma_days_fit(year as int, as_u32(month as int), as_u32(day as int));
    }
    let month_bits: u32 = if month < 0 {
        (month + 4294967296) as u32
    } else {
        month as u32
    };
    let day_bits: u32 = if day < 0 {
        (day + 4294967296) as u32
    } else {
        day as u32
    };
    let days = days_from_civil(year, month_bits, day_bits);
    let local = days * 86_400 + hour * 3600 + minute * 60 + second;
    let unix = local - utc_offset_secs;
    if unix < 0 {
        return None;
    }
    Some(unix as u64)
}

/// A stamp that parses denotes a time well inside `i64`.
pub proof fn lemma_timestamp_local_bound(s: Seq<char>)
    ensures
        timestamp_local(s) matches Some(l) ==> -100_000_000_000_000_000 <= l
            <= 100_000_000_000_000_000,
{
    if let Some(l) = timestamp_local(s) {
        lemma_parse_int_small(s.subrange(0, 4));
        lemma_parse_int_small(s.subrange(5, 7));
        lemma_parse_int_small(s.subrange(8, 10));
        lemma_parse_int_small(s.subrange(11, 13));
        lemma_parse_int_small(s.subrange(14, 16));
        lemma_parse_int_small(s.subrange(17, 19));
        let y = parse_int(s.subrange(0, 4)).unwrap();
        let mo = parse_int(s.subrange(5, 7)).unwrap();
        let d = parse_int(s.subrange(8, 10)).unwrap();
        lemma_days_fit(y, as_u32(mo), as_u32(d));
    }
}

/// A parsed line's time, shifted back to local time, fits a signed count.
pub proof fn lemma_parsed_event_fits(line: Seq<char>, off: i64)
    requires
        offset_fits(line, off as int),
    ensures
        from_log_line_spec(line, off as int) matches Some((at, _sv, _sr, _t)) ==> at
            <= 0x7fff_ffff_ffff_ffffu64 && local_fits(at, off),
{
    if ascii_head(line) {
        lemma_timestamp_local_bound(line.take(19));
    }
}

/// A parsed field of at most four characters lies within what four digits
/// (or a sign and three) can say.
proof fn lemma_parse_int_small(s: Seq<char>)
    requires
        s.len() <= 4,
    ensures
        parse_int(s) matches Some(x) ==> -999 <= x <= 9999,
{
    if let Some(x) = parse_int(s) {
        if s[0] == '+' || s[0] == '-' {
            crate::text::lemma_digits_value_bound(s.drop_first());
            crate::text::lemma_pow10_mono(s.drop_first().len(), 3);
            reveal_with_fuel(crate::text::pow10, 4);
        } else {
            crate::text::lemma_digits_value_bound(s);
            crate::text::lemma_pow10_mono(s.len(), 4);
            reveal_with_fuel(crate::text::pow10, 5);
        }
    }
}

/// How long a message stays on screen unless a later one replaces it, in
/// milliseconds.
pub const DISPLAY_TIME_MS: u64 = 5000;

/// The message sink: the session's events (oldest first), the time until
/// which the latest is on screen, and a transient hint. Times are
/// milliseconds on the caller's monotonic clock. When a log file is attached
/// each appended event is handed back as the line to write.
pub struct EventStream {
    log: Vec<Event>,
    showing_until: Option<u64>,
    hint: Option<(String, u64)>,
    logging: bool,
    utc_offset_secs: i64,
}

impl EventStream {
    pub closed spec fn log_view(&self) -> Seq<Event> {
        self.log@
    }

    pub closed spec fn showing_until_view(&self) -> Option<u64> {
        self.showing_until
    }

    pub closed spec fn hint_view(&self) -> Option<(Seq<char>, u64)> {
        match self.hint {
            Some((t, u)) => Some((t@, u)),
            None => None,
        }
    }

    pub closed spec fn logging_view(&self) -> bool {
        self.logging
    }

    pub closed spec fn offset_view(&self) -> i64 {
        self.utc_offset_secs
    }

    pub fn new() -> (r: Self)
        ensures
            r.log_view() == Seq::<Event>::empty(),
            r.showing_until_view() is None,
            r.hint_view() is None,
            !r.logging_view(),
            r.offset_view() == 0,
    {
        EventStream { log: Vec::new(), showing_until: None, hint: None, logging: false, utc_offset_secs: 0 }
    }

    /// Adopt previous sessions' messages (oldest first) without displaying
    /// or re-writing them.
    pub fn seed(&mut self, messages: Vec<Event>)
        ensures
            final(self).log_view() == messages@,
            final(self).showing_until_view() == old(self).showing_until_view(),
            final(self).hint_view() == old(self).hint_view(),
            final(self).logging_view() == old(self).logging_view(),
            final(self).offset_view() == old(self).offset_view(),
    {
        self.log = messages;
    }

    /// From now on every appended event is also handed back as a log line,
    /// written in the local time `utc_offset_secs` from UTC.
    pub fn attach_log(&mut self, utc_offset_secs: i64)
        ensures
            final(self).log_view() == old(self).log_view(),
            final(self).showing_until_view() == old(self).showing_until_view(),
            final(self).hint_view() == old(self).hint_view(),
            final(self).logging_view(),
            final(self).offset_view() == utc_offset_secs,
    {
        self.logging = true;
        self.utc_offset_secs = utc_offset_secs;
    }

    fn append(&mut self, event: Event) -> (line: Option<String>)
        requires
            old(self).logging_view() ==> local_fits(event.at, old(self).offset_view()),
        ensures
            final(self).log_view() == old(self).log_view().push(event),
            final(self).showing_until_view() == old(self).showing_until_view(),
            final(self).hint_view() == old(self).hint_view(),
            final(self).logging_view() == old(self).logging_view(),
            final(self).offset_view() == old(self).offset_view(),
            match line {
                Some(l) => old(self).logging_view() && l@ == log_line_spec(
                    event.at,
                    event.severity,
                    event.source,
                    event.text@,
                    old(self).offset_view(),
                ),
                None => !old(self).logging_view(),
            },
    {
        let line = if self.logging {
            Some(event.log_line(self.utc_offset_secs))
        } else {
            None
        };
        self.log.push(event);
        line
    }

    /// Emit with a display time of `display_ms` from `now_ms`.
    pub fn emit_showing_for(&mut self, event: Event, display_ms: u64, now_ms: u64) -> (line:
        Option<String>)
        requires
            old(self).logging_view() ==> local_fits(event.at, old(self).offset_view()),
            now_ms + display_ms <= u64::MAX,
        ensures
            final(self).log_view() == old(self).log_view().push(event),
            final(self).showing_until_view() == Some((now_ms + display_ms) as u64),
            final(self).hint_view() == old(self).hint_view(),
            final(self).logging_view() == old(self).logging_view(),
            final(self).offset_view() == old(self).offset_view(),
            match line {
                Some(l) => old(self).logging_view() && l@ == log_line_spec(
                    event.at,
                    event.severity,
                    event.source,
                    event.text@,
                    old(self).offset_view(),
                ),
                None => !old(self).logging_view(),
            },
    {
        let line = self.append(event);
        self.showing_until = Some(now_ms + display_ms);
        line
    }

    /// Emit with the standard display time.
    pub fn emit(&mut self, event: Event, now_ms: u64) -> (line: Option<String>)
        requires
            old(self).logging_view() ==> local_fits(event.at, old(self).offset_view()),
            now_ms + DISPLAY_TIME_MS <= u64::MAX,
        ensures
            final(self).log_view() == old(self).log_view().push(event),
            final(self).showing_until_view() == Some((now_ms + DISPLAY_TIME_MS) as u64),
            final(self).hint_view() == old(self).hint_view(),
            final(self).logging_view() == old(self).logging_view(),
            final(self).offset_view() == old(self).offset_view(),
            match line {
                Some(l) => old(self).logging_view() && l@ == log_line_spec(
                    event.at,
                    event.severity,
                    event.source,
                    event.text@,
                    old(self).offset_view(),
                ),
                None => !old(self).logging_view(),
            },
    {
        self.emit_showing_for(event, DISPLAY_TIME_MS, now_ms)
    }

    /// Record an event without displaying it: history and file, never the bar.
    pub fn record(&mut self, event: Event) -> (line: Option<String>)
        requires
            old(self).logging_view() ==> local_fits(event.at, old(self).offset_view()),
        ensures
            final(self).log_view() == old(self).log_view().push(event),
            final(self).showing_until_view() == old(self).showing_until_view(),
            final(self).hint_view() == old(self).hint_view(),
            final(self).logging_view() == old(self).logging_view(),
            final(self).offset_view() == old(self).offset_view(),
            match line {
                Some(l) => old(self).logging_view() && l@ == log_line_spec(
                    event.at,
                    event.severity,
                    event.source,
                    event.text@,
                    old(self).offset_view(),
                ),
                None => !old(self).logging_view(),
            },
    {
        self.append(event)
    }

    /// The message currently on screen at `now_ms` and when it leaves.
    pub fn showing(&self, now_ms: u64) -> (r: Option<(&Event, u64)>)
        ensures
            match r {
                Some((e, until)) => self.showing_until_view() == Some(until) && now_ms < until
                    && self.log_view().len() > 0 && *e == self.log_view().last(),
                None => !(self.showing_until_view() matches Some(u) && now_ms < u
                    && self.log_view().len() > 0),
            },
    {
        match self.showing_until {
            Some(until) => {
                if now_ms < until && self.log.len() > 0 {
                    Some((&self.log[self.log.len() - 1], until))
                } else {
                    None
                }
            },
            None => None,
        }
    }

    /// Show transient guidance on the bar until `now_ms + display_ms`,
    /// without recording it anywhere.
    pub fn show_hint(&mut self, text: &str, display_ms: u64, now_ms: u64)
        requires
            now_ms + display_ms <= u64::MAX,
        ensures
            final(self).hint_view() == Some((text@, (now_ms + display_ms) as u64)),
            final(self).log_view() == old(self).log_view(),
            final(self).showing_until_view() == old(self).showing_until_view(),
            final(self).logging_view() == old(self).logging_view(),
            final(self).offset_view() == old(self).offset_view(),
    {
        self.hint = Some((string_of(&chars_of(text)), now_ms + display_ms));
    }

    /// The hint on screen at `now_ms` and when it leaves.
    pub fn hint_showing(&self, now_ms: u64) -> (r: Option<(&str, u64)>)
        ensures
            match r {
                Some((t, until)) => self.hint_view() == Some((t@, until)) && now_ms < until,
                None => !(self.hint_view() matches Some((_t, u)) && now_ms < u),
            },
    {
        match &self.hint {
            Some((text, until)) => {
                if now_ms < *until {
                    Some((text.as_str(), *until))
                } else {
                    None
                }
            },
            None => None,
        }
    }

    /// Take what the bar shows off screen: the message if one is showing,
    /// else the hint. Messages stay in the log.
    pub fn dismiss(&mut self, now_ms: u64)
        ensures
            final(self).log_view() == old(self).log_view(),
            final(self).logging_view() == old(self).logging_view(),
            final(self).offset_view() == old(self).offset_view(),
            if old(self).showing_until_view() matches Some(u) && now_ms < u && old(
                self,
            ).log_view().len() > 0 {
                &&& final(self).showing_until_view() is None
                &&& final(self).hint_view() == old(self).hint_view()
            } else {
                &&& final(self).showing_until_view() == old(self).showing_until_view()
                &&& final(self).hint_view() is None
            },
    {
        if self.showing(now_ms).is_some() {
            self.showing_until = None;
        } else {
            self.hint = None;
        }
    }

    /// Take the hint off screen, whatever else the bar shows.
    pub fn dismiss_hint(&mut self)
        ensures
            final(self).hint_view() is None,
            final(self).log_view() == old(self).log_view(),
            final(self).showing_until_view() == old(self).showing_until_view(),
            final(self).logging_view() == old(self).logging_view(),
            final(self).offset_view() == old(self).offset_view(),
    {
        self.hint = None;
    }

    /// The whole session's messages, oldest first.
    pub fn entries(&self) -> (r: &[Event])
        ensures
            r@ == self.log_view(),
    {
        self.log.as_slice()
    }
}

/// The earliest time still kept when pruning `retention_days` of history at
/// `now` (seconds since the epoch); the epoch when the window reaches past it.
pub fn retention_cutoff(now: u64, retention_days: u64) -> (r: u64)
    ensures
        r as int == if now >= retention_days * 86400 {
            now - retention_days * 86400
        } else {
            0
        },
{
    let window: u64 = if retention_days > u64::MAX / 86_400 {
        u64::MAX
    } else {
        retention_days * 86_400
    };
    if now >= window {
        now - window
    } else {
        0
    }
}

/// The lines that parse and are not older than `cutoff`, as events.
pub open spec fn pruned_events(lines: Seq<Seq<char>>, cutoff: u64, off: int) -> Seq<
    (u64, Severity, Source, Seq<char>),
>
    decreases lines.len(),
{
    if lines.len() == 0 {
        Seq::empty()
    } else {
        let rest = pruned_events(lines.drop_last(), cutoff, off);
        match from_log_line_spec(lines.last(), off) {
            Some(p) => if p.0 >= cutoff {
                rest.push(p)
            } else {
                rest
            },
            None => rest,
        }
    }
}

/// The log text for parsed events: each one's log line and a line break.
pub open spec fn log_text(events: Seq<(u64, Severity, Source, Seq<char>)>, off: i64) -> Seq<char>
    decreases events.len(),
{
    if events.len() == 0 {
        Seq::empty()
    } else {
        let e = events.last();
        log_text(events.drop_last(), off) + log_line_spec(e.0, e.1, e.2, e.3, off) + seq!['\n']
    }
}

/// Drop the lines older than `cutoff` and any that don't parse; return what
/// survives, as events and as the log text to write back (one line each).
#[verifier::rlimit(50)]
pub fn prune_lines(lines: &Vec<String>, cutoff: u64, utc_offset_secs: i64) -> (r: (
    Vec<Event>,
    String,
))
    requires
        forall|i: int| 0 <= i < lines@.len() ==> offset_fits(#[trigger] lines@[i]@, utc_offset_secs as int),
    ensures
        r.0@.len() == pruned_events(lines@.map_values(|l: String| l@), cutoff, utc_offset_secs as int).len(),
        forall|i: int| 0 <= i < r.0@.len() ==> {
            let p = pruned_events(lines@.map_values(|l: String| l@), cutoff, utc_offset_secs as int)[i];
            &&& (#[trigger] r.0@[i]).at == p.0
            &&& r.0@[i].severity == p.1
            &&& r.0@[i].source == p.2
            &&& r.0@[i].text@ == p.3
        },
        r.1@ == log_text(pruned_events(lines@.map_values(|l: String| l@), cutoff, utc_offset_secs as int), utc_offset_secs),
{
    let ghost views = lines@.map_values(|l: String| l@);
    let mut kept: Vec<Event> = Vec::new();
    let mut body: Vec<char> = Vec::new();
    let mut i: usize = 0;
    while i < lines.len()
        invariant
            i <= lines@.len(),
            views == lines@.map_values(|l: String| l@),
            forall|j: int| 0 <= j < lines@.len() ==> offset_fits(#[trigger] lines@[j]@, utc_offset_secs as int),
            kept@.len() == pruned_events(views.take(i as int), cutoff, utc_offset_secs as int).len(),
            forall|j: int| 0 <= j < kept@.len() ==> {
                let p = pruned_events(views.take(i as int), cutoff, utc_offset_secs as int)[j];
                &&& (#[trigger] kept@[j]).at == p.0
                &&& kept@[j].severity == p.1
                &&& kept@[j].source == p.2
                &&& kept@[j].text@ == p.3
            },
            body@ == log_text(pruned_events(views.take(i as int), cutoff, utc_offset_secs as int), utc_offset_secs),
        decreases lines.len() - i,
    {
        let line = &lines[i];
        assert(views.take(i + 1).drop_last() =~= views.take(i as int));
        assert(views.take(i + 1).last() == lines@[i as int]@);
        proof {
            lemma_parsed_event_fits(lines@[i as int]@, utc_offset_secs);
        }
        match Event::from_log_line(line.as_str(), utc_offset_secs) {
            Some(e) => {
                if e.at >= cutoff {
                    let l = e.log_line(utc_offset_secs);
                    push_chars(&mut body, &chars_of(l.as_str()));
                    body.push('\n');
                    kept.push(e);
                    proof {
                        let prev = pruned_events(views.take(i as int), cutoff, utc_offset_secs as int);
                        let p = (e.at, e.severity, e.source, e.text@);
                        assert(pruned_events(views.take(i + 1), cutoff, utc_offset_secs as int) == prev.push(p));
                        assert(prev.push(p).drop_last() =~= prev);
                        assert(prev.push(p).last() == p);
                        assert(body@ =~= log_text(prev.push(p), utc_offset_secs));
                    }
                }
            },
            None => {},
        }
        i = i + 1;
    }
    assert(views.take(lines@.len() as int) =~= views);
    (kept, string_of(&body))
}

/// All of `s` is ASCII.
pub open spec fn ascii_only(s: Seq<char>) -> bool {
    forall|i: int| 0 <= i < s.len() ==> #[trigger] s[i] < '\u{80}'
}

/// The local offset from UTC in seconds, read from the output of
/// `date +%z` (`+HHMM` or `-HHMM` once trimmed); zero for any other output.
pub open spec fn utc_offset_spec(output: Seq<char>) -> int {
    let t = crate::text::trim(output);
    if !ascii_only(t) || t.len() != 5 {
        0
    } else {
        let sign: int = if t[0] == '-' {
            -1
        } else {
            1
        };
        match (parse_int(t.subrange(1, 3)), parse_int(t.subrange(3, 5))) {
            (Some(h), Some(m)) => sign * (h * 3600 + m * 60),
            _ => 0,
        }
    }
}

/// The local offset from UTC, from what `date +%z` printed.
pub fn utc_offset_from(output: &str) -> (r: i64)
    ensures
        r == utc_offset_spec(output@),
{
    let t = crate::text::trimmed(output);
    let mut i: usize = 0;
    while i < t.len()
        invariant
            i <= t@.len(),
            t@ == crate::text::trim(output@),
            forall|j: int| 0 <= j < i ==> #[trigger] t@[j] < '\u{80}',
        decreases t.len() - i,
    {
        if t[i] >= '\u{80}' {
            assert(!ascii_only(t@)) by {
                assert(!(t@[i as int] < '\u{80}'));
            }
            return 0;
        }
        i = i + 1;
    }
    if t.len() != 5 {
        return 0;
    }
    let sign: i64 = if t[0] == '-' {
        -1
    } else {
        1
    };
    let h = parse_i64_range(&t, 1, 3);
    let m = parse_i64_range(&t, 3, 5);
    match (h, m) {
        (Some(h), Some(m)) => {
            proof {
                lemma_parse_two_digits(t@.subrange(1, 3));
                lemma_parse_two_digits(t@.subrange(3, 5));
            }
            sign * (h * 3600 + m * 60)
        },
        _ => 0,
    }
}

/// Two characters parse to at most 99 in size.
proof fn lemma_parse_two_digits(s: Seq<char>)
    requires
        s.len() == 2,
    ensures
        parse_int(s) matches Some(v) ==> -9 <= v <= 99,
{
    if let Some(v) = parse_int(s) {
        if s[0] == '+' || s[0] == '-' {
            let r = s.drop_first();
            assert(r.drop_last() =~= Seq::<char>::empty());
            assert('0' <= r[0] <= '9');
            assert(digits_value(r) == digits_value(r.drop_last()) * 10 + digit_value(r.last()));
        } else {
            let a = s.drop_last();
            assert(a.drop_last() =~= Seq::<char>::empty());
            assert('0' <= s[0] <= '9' && '0' <= s[1] <= '9');
            assert(digits_value(a) == digits_value(a.drop_last()) * 10 + digit_value(a.last()));
            assert(digits_value(s) == digits_value(a) * 10 + digit_value(s.last()));
        }
    }
}

/// Whether every log line's time converts at this offset: any offset of
/// less than nine quintillion seconds either way.
pub fn offset_in_range(off: i64) -> (r: bool)
    ensures
        r == (-9_000_000_000_000_000_000 <= off <= 9_000_000_000_000_000_000),
        r ==> forall|line: Seq<char>| #[trigger] offset_fits(line, off as int),
{
    let r = -9_000_000_000_000_000_000 <= off && off <= 9_000_000_000_000_000_000;
    proof {
        if r {
            assert forall|line: Seq<char>| #[trigger] offset_fits(line, off as int) by {
                lemma_timestamp_local_bound(line.take(19));
            }
        }
    }
    r
}

} // verus!
