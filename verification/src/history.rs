//! The message-history overlay's content: every message of the session as
//! display lines (its local clock time, then its text wrapped under a
//! hanging indent), the window of lines a scrolled view shows, and the note
//! on how many lines lie outside it.

use crate::messages::{
    clock_time_spec, display_text_spec, local_fits, Event, Severity, Source,
};
use crate::render::{wrap_spec, wrap_words};
use crate::text::{chars_of, push_chars, push_decimal, string_of};
use vstd::prelude::*;

verus! {

broadcast use vstd::seq_lib::group_seq_properties;

/// The width of the clock-time column, `HH:MM:SS` and two spaces.
pub const HISTORY_INDENT: usize = 10;

/// One display line: its prefix (the clock time on a message's first line,
/// blank under it), its text, and the severity it is coloured by.
pub struct HistoryLine {
    pub prefix: String,
    pub text: String,
    pub severity: Severity,
}

impl HistoryLine {
    pub open spec fn view_tuple(self) -> (Seq<char>, Seq<char>, Severity) {
        (self.prefix@, self.text@, self.severity)
    }
}

/// `n` spaces.
pub open spec fn blanks(n: nat) -> Seq<char> {
    Seq::new(n, |_i: int| ' ')
}

/// The width text wraps to in an overlay `width` columns wide: what the
/// clock column leaves, and never under eight.
pub open spec fn body_width(width: nat) -> nat {
    if width >= HISTORY_INDENT + 8 {
        (width - HISTORY_INDENT) as nat
    } else {
        8
    }
}

/// A message's display lines.
pub open spec fn event_lines(m: Event, body: nat, off: i64) -> Seq<(Seq<char>, Seq<char>, Severity)> {
    let segs = wrap_spec(display_text_spec(m.source, m.text@), body);
    Seq::new(
        segs.len(),
        |i: int|
            (
                if i == 0 {
                    clock_time_spec(m.at, off) + seq![' ', ' ']
                } else {
                    blanks(HISTORY_INDENT as nat)
                },
                segs[i],
                m.severity,
            ),
    )
}

/// The display lines of `es`, oldest first.
pub open spec fn history_lines_spec(es: Seq<Event>, body: nat, off: i64) -> Seq<
    (Seq<char>, Seq<char>, Severity),
>
    decreases es.len(),
{
    if es.len() == 0 {
        Seq::empty()
    } else {
        history_lines_spec(es.drop_last(), body, off) + event_lines(es.last(), body, off)
    }
}

/// Every message can be shown: its local time fits, and a deck message's
/// deck can be numbered from one.
pub open spec fn showable(es: Seq<Event>, off: i64) -> bool {
    forall|i: int|
        0 <= i < es.len() ==> local_fits((#[trigger] es[i]).at, off) && (es[i].source matches Source::Deck(
            s,
        ) ==> s < usize::MAX)
}

fn blank_prefix() -> (r: String)
    ensures
        r@ == blanks(HISTORY_INDENT as nat),
{
    let mut v: Vec<char> = Vec::new();
    let mut i: usize = 0;
    while i < HISTORY_INDENT
        invariant
            i <= HISTORY_INDENT,
            v@ == blanks(i as nat),
        decreases HISTORY_INDENT - i,
    {
        v.push(' ');
        i = i + 1;
        assert(v@ =~= blanks(i as nat));
    }
    string_of(&v)
}

/// The display lines of the session's messages in an overlay `width`
/// columns wide, oldest first, times shown `utc_offset_secs` from UTC.
pub fn history_lines(entries: &[Event], width: usize, utc_offset_secs: i64) -> (r: Vec<HistoryLine>)
    requires
        showable(entries@, utc_offset_secs),
    ensures
        r@.map_values(|l: HistoryLine| l.view_tuple()) == history_lines_spec(
            entries@,
            body_width(width as nat),
            utc_offset_secs,
        ),
{
    let body: usize = if width >= HISTORY_INDENT + 8 {
        width - HISTORY_INDENT
    } else {
        8
    };
    let mut out: Vec<HistoryLine> = Vec::new();
    let mut k: usize = 0;
    while k < entries.len()
        invariant
            k <= entries@.len(),
            body == body_width(width as nat),
            showable(entries@, utc_offset_secs),
            out@.map_values(|l: HistoryLine| l.view_tuple()) == history_lines_spec(
                entries@.take(k as int),
                body as nat,
                utc_offset_secs,
            ),
        decreases entries@.len() - k,
    {
        let m = &entries[k];
        let segs = wrap_words(m.display_text().as_str(), body);
        let ghost want = event_lines(*m, body as nat, utc_offset_secs);
        let ghost before = out@.map_values(|l: HistoryLine| l.view_tuple());
        let mut i: usize = 0;
        while i < segs.len()
            invariant
                i <= segs@.len(),
                segs@.map_values(|l: String| l@) == wrap_spec(
                    display_text_spec(m.source, m.text@),
                    body as nat,
                ),
                local_fits(m.at, utc_offset_secs),
                want == event_lines(*m, body as nat, utc_offset_secs),
                out@.map_values(|l: HistoryLine| l.view_tuple()) == before + want.take(i as int),
            decreases segs@.len() - i,
        {
            let prefix = if i == 0 {
                let mut p = chars_of(m.clock_time(utc_offset_secs).as_str());
                p.push(' ');
                p.push(' ');
                assert(p@ =~= clock_time_spec(m.at, utc_offset_secs) + seq![' ', ' ']);
                string_of(&p)
            } else {
                blank_prefix()
            };
            let text = string_of(&chars_of(segs[i].as_str()));
            proof {
                assert(segs@[i as int]@ == segs@.map_values(|l: String| l@)[i as int]);
                assert(want.len() == segs@.len());
                assert(want[i as int] == (prefix@, text@, m.severity));
            }
            let ghost prev = out@;
            let line = HistoryLine { prefix, text, severity: m.severity };
            let ghost lv = line.view_tuple();
            out.push(line);
            proof {
                assert(out@ == prev.push(line));
                assert(out@.map_values(|l: HistoryLine| l.view_tuple()) =~= prev.map_values(
                    |l: HistoryLine| l.view_tuple(),
                ).push(lv));
                assert(want.take(i + 1) =~= want.take(i as int).push(want[i as int]));
                assert(out@.map_values(|l: HistoryLine| l.view_tuple()) =~= before + want.take(
                    i + 1,
                ));
            }
            i = i + 1;
        }
        proof {
            assert(want.take(segs@.len() as int) =~= want);
            assert(entries@.take(k + 1).drop_last() =~= entries@.take(k as int));
            assert(entries@.take(k + 1).last() == *m);
        }
        k = k + 1;
    }
    proof {
        assert(entries@.take(entries@.len() as int) =~= entries@);
    }
    out
}

/// The window a view scrolled `scroll_from_tail` lines back from the newest
/// shows of `total` lines in `rows` rows: the scroll clamped to the content,
/// the window's end that many lines before the newest, and its start at
/// most `rows` lines before that.
pub open spec fn window_spec(total: nat, rows: nat, scroll_from_tail: nat) -> (nat, nat, nat) {
    let most: nat = if total >= rows {
        (total - rows) as nat
    } else {
        0
    };
    let scroll: nat = if scroll_from_tail <= most {
        scroll_from_tail
    } else {
        most
    };
    let end: nat = (total - scroll) as nat;
    let start: nat = if end >= rows {
        (end - rows) as nat
    } else {
        0
    };
    (start, end, scroll)
}

/// The lines `start..end` to show and the scroll actually used. The window
/// holds `rows` lines, or all of them when there are fewer; unscrolled it
/// ends at the newest.
pub fn history_window(total: usize, rows: usize, scroll_from_tail: usize) -> (r: (usize, usize, usize))
    ensures
        (r.0 as nat, r.1 as nat, r.2 as nat) == window_spec(
            total as nat,
            rows as nat,
            scroll_from_tail as nat,
        ),
        r.0 <= r.1 <= total,
        r.1 - r.0 == if total >= rows {
            rows as int
        } else {
            total as int
        },
        scroll_from_tail == 0 ==> r.1 == total,
{
    let most = if total >= rows {
        total - rows
    } else {
        0
    };
    let scroll = if scroll_from_tail <= most {
        scroll_from_tail
    } else {
        most
    };
    let end = total - scroll;
    let start = if end >= rows {
        end - rows
    } else {
        0
    };
    (start, end, scroll)
}

/// The header's note on the lines outside the window: none, the older
/// ones, or the older and the newer ones.
pub open spec fn position_note_spec(older: nat, newer: nat) -> Seq<char> {
    if newer == 0 {
        if older == 0 {
            Seq::empty()
        } else {
            seq![' ', ' ', '('] + crate::text::decimal(older) + seq![
                ' ',
                'o',
                'l',
                'd',
                'e',
                'r',
                ')',
            ]
        }
    } else {
        seq![' ', ' ', '('] + crate::text::decimal(older) + seq![
            ' ',
            'o',
            'l',
            'd',
            'e',
            'r',
            ',',
            ' ',
        ] + crate::text::decimal(newer) + seq![' ', 'n', 'e', 'w', 'e', 'r', ')']
    }
}

pub fn position_note(older: usize, newer: usize) -> (r: String)
    requires
        older <= u64::MAX,
        newer <= u64::MAX,
    ensures
        r@ == position_note_spec(older as nat, newer as nat),
{
    let mut v: Vec<char> = Vec::new();
    if older == 0 && newer == 0 {
        return string_of(&v);
    }
    push_chars(&mut v, &[' ', ' ', '(']);
    push_decimal(&mut v, older as u64);
    push_chars(&mut v, &[' ', 'o', 'l', 'd', 'e', 'r']);
    if newer != 0 {
        push_chars(&mut v, &[',', ' ']);
        push_decimal(&mut v, newer as u64);
        push_chars(&mut v, &[' ', 'n', 'e', 'w', 'e', 'r']);
    }
    v.push(')');
    assert(v@ =~= position_note_spec(older as nat, newer as nat));
    string_of(&v)
}

} // verus!
