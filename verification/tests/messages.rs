use deck::history::{history_lines, history_window, position_note};
use deck::messages::{days_from_civil, Event, EventStream, Severity, Source};
use deck::error_reports::{civil_from_days, utc_stamp};

#[test]
fn log_line_roundtrip() {
    let m = Event::new(Source::Deck(1), Severity::Warning, "3 tracks unavailable — open the playlist to see which");
    for offset in [-11 * 3600, 0, 3600, 5 * 3600 + 1800] {
        let parsed = Event::from_log_line(&m.log_line(offset), offset).expect("line should parse back");
        assert_eq!(parsed.text, m.text);
        assert!(parsed.severity == m.severity);
        assert_eq!(parsed.source.token(), m.source.token());
        // Whole seconds survive exactly.
        assert_eq!(parsed.at, m.at);
    }
}

#[test]
fn newlines_are_sanitised_at_construction() {
    let m = Event::new(Source::App, Severity::Info, "two\nlines\r\nhere");
    assert!(!m.text.contains('\n') && !m.text.contains('\r'));
}

#[test]
fn malformed_lines_do_not_parse() {
    for line in ["", "not a log line", "2026-08-11 10:00:00 nope app  text", "2026-08-11 10:00 warn app  short stamp"] {
        assert!(Event::from_log_line(line, 0).is_none(), "parsed unexpectedly: {line}");
    }
}

#[test]
fn log_line_has_the_documented_shape() {
    let e = Event::new_at(0, Source::Tags, Severity::Error, "bad tag");
    let line = e.log_line(0);
    assert!(line.starts_with("1970-01-01 00:00:00 "), "{line}");
    assert!(line.ends_with("bad tag"), "{line}");
}

#[test]
fn civil_dates_round_trip() {
    assert_eq!(civil_from_days(0), (1970, 1, 1));
    assert_eq!(civil_from_days(-1), (1969, 12, 31));
    assert_eq!(civil_from_days(11016), (2000, 2, 29));
    assert_eq!(days_from_civil(2000, 2, 29), 11016);
    assert_eq!(days_from_civil(1970, 1, 1), 0);
    for d in [-800_000i64, -1, 0, 59, 60, 19_000, 2_000_000] {
        let (y, m, dd) = civil_from_days(d);
        assert_eq!(days_from_civil(y, m, dd), d);
    }
}

#[test]
fn utc_stamp_sorts_as_it_reads() {
    assert_eq!(utc_stamp(0), "1970-01-01_000000");
    assert_eq!(utc_stamp(951_782_400 + 3_661), "2000-02-29_010101");
}

#[test]
fn deck_messages_name_their_deck_and_show_local_time() {
    let e = Event::new_at(3600 + 61, Source::Deck(0), Severity::Info, "loaded");
    assert_eq!(e.display_text(), "Deck 1: loaded");
    assert_eq!(e.clock_time(0), "01:01:01");
    assert_eq!(e.clock_time(-2 * 3600), "23:01:01");
    let a = Event::new_at(0, Source::App, Severity::Info, "ready");
    assert_eq!(a.display_text(), "ready");
}

#[test]
fn the_bar_shows_the_latest_message_then_the_hint() {
    let mut s = EventStream::new();
    assert!(s.showing(0).is_none());
    s.show_hint("press ? for help", 1000, 0);
    assert_eq!(s.hint_showing(500), Some(("press ? for help", 1000)));
    assert_eq!(s.hint_showing(1000), None);
    // Nothing is written while no log is attached.
    assert!(s.emit(Event::new_at(5, Source::App, Severity::Info, "first"), 100).is_none());
    let (shown, until) = s.showing(200).expect("the message is on screen");
    assert_eq!((shown.text.as_str(), until), ("first", 5100));
    // Dismissing takes the message off screen first, then the hint.
    s.dismiss(300);
    assert!(s.showing(300).is_none());
    assert!(s.hint_showing(300).is_some());
    s.dismiss(300);
    assert!(s.hint_showing(300).is_none());
    assert_eq!(s.entries().len(), 1);
    // With a log attached, each appended event comes back as its line.
    s.attach_log(0);
    let line = s.record(Event::new_at(0, Source::Files, Severity::Warning, "quiet")).expect("a line");
    assert!(line.starts_with("1970-01-01 00:00:00 "), "{line}");
    assert!(s.showing(400).is_none());
    s.show_hint("again", 10, 0);
    s.dismiss_hint();
    assert!(s.hint_showing(0).is_none());
    assert_eq!(s.entries().len(), 2);
}

#[test]
fn history_wraps_under_a_hanging_indent() {
    let entries = vec![
        Event::new_at(3600, Source::App, Severity::Info, "ready"),
        Event::new_at(7322, Source::Deck(1), Severity::Warning, "a rather long message that wraps"),
    ];
    // 28 columns leave 18 for the text.
    let lines = history_lines(&entries, 28, 0);
    let shown: Vec<(String, String)> = lines.iter().map(|l| (l.prefix.clone(), l.text.clone())).collect();
    assert_eq!(
        shown,
        vec![
            ("01:00:00  ".to_string(), "ready".to_string()),
            ("02:02:02  ".to_string(), "Deck 2: a rather".to_string()),
            ("          ".to_string(), "long message that".to_string()),
            ("          ".to_string(), "wraps".to_string()),
        ]
    );
    assert!(lines[1].severity == Severity::Warning);
    // Narrow overlays still wrap at eight columns.
    assert_eq!(history_lines(&entries[..1], 5, 0)[0].text, "ready");
}

#[test]
fn history_window_clamps_its_scroll() {
    // 30 lines in 10 rows: unscrolled shows the newest ten.
    assert_eq!(history_window(30, 10, 0), (20, 30, 0));
    assert_eq!(history_window(30, 10, 5), (15, 25, 5));
    // Scrolling past the oldest stops there.
    assert_eq!(history_window(30, 10, 99), (0, 10, 20));
    // Fewer lines than rows: everything, unscrolled.
    assert_eq!(history_window(4, 10, 3), (0, 4, 0));
    assert_eq!(position_note(0, 0), "");
    assert_eq!(position_note(20, 0), "  (20 older)");
    assert_eq!(position_note(15, 5), "  (15 older, 5 newer)");
}
