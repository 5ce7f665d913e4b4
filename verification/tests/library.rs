use deck::config::{
    action_named, parse_bare_key, parse_display_config, parse_key, parse_keymap, snap_to_fps_level,
    keymap_warnings, Action, ConfigWarningKind, Key, KeyBinding, Keymap,
};
use deck::deck::{jump_beats, EditorKey, TagEditorState};
use deck::panel::{confirm_active_card, dim_browser, readopt_index, EntryStatus, PanelKind, PlaylistPanel, Resolved};
use deck::playlist::{
    backup_path, can_confirm, changed_description, comparison_tokens, field_overlap, fold_accent,
    hash_confirms, Description,
};
use deck::render::{compose_shared_tick_row, extract_tick_viewport, render_braille, shift_braille_half, wrap_words};
use deck::scales::{DetailMap, Viewport};
use deck::session::{default_art_bright_idx, idle_elapsed, mirror_path_for, session_path, track_data_path, SessionFile, SessionState};
use deck::xdg::{config_dir, data_dir, home_for, panic_log_path, state_dir};
use deck::error_reports::dir;
use deck::tracks::TrackDatabase;

#[test]
fn grid_phase_derivation_maths() {
    // Anchor at 10.5 s, 120 BPM (500 ms period) → offset 10500 % 500 = 0.
    // Anchor at 10.75 s → 250 ms. 1 ms precision, no 10 ms rounding.
    let period_ms = 60_000.0 / 120.0f64;
    let derive = |anchor_ms: f64| anchor_ms.rem_euclid(period_ms).round() as i64;
    assert_eq!(derive(10_500.0), 0);
    assert_eq!(derive(10_750.0), 250);
    assert_eq!(derive(10_753.0), 253);
}

#[test]
fn actions_are_found_by_name() {
    assert_eq!(action_named("quit"), Some(Action::Quit));
    assert_eq!(action_named("jump_forward_16b"), Some(Action::JumpForward16b));
    assert_eq!(action_named("swap_deck2_deck3"), Some(Action::SwapDeck2Deck3));
    assert_eq!(action_named("no_such_action"), None);
}

#[test]
fn keys_parse_as_written() {
    assert_eq!(parse_bare_key("space"), Some(Key::Char(' ')));
    assert_eq!(parse_bare_key("esc"), Some(Key::Esc));
    assert_eq!(parse_bare_key("x"), Some(Key::Char('x')));
    assert_eq!(parse_bare_key("é"), Some(Key::Char('é')));
    assert_eq!(parse_bare_key("ctrl"), None);
    assert_eq!(parse_key("space+left"), Some(KeyBinding::SpaceChord(Key::Left)));
    assert_eq!(parse_key("q"), Some(KeyBinding::Key(Key::Char('q'))));
    assert_eq!(parse_key("space"), Some(KeyBinding::Key(Key::Char(' '))));
    assert_eq!(parse_key("space+nope"), None);
}

#[test]
fn frame_rates_snap_to_the_nearest_level() {
    assert_eq!(snap_to_fps_level(60), 60);
    assert_eq!(snap_to_fps_level(1), 15);
    assert_eq!(snap_to_fps_level(500), 240);
    assert_eq!(snap_to_fps_level(22), 20);
    assert_eq!(snap_to_fps_level(105), 90);
    assert_eq!(snap_to_fps_level(106), 120);
}

#[test]
fn display_settings_from_the_config() {
    let d = parse_display_config("[display]\nplayhead_position = 150\ndetail_height = 1\ntarget_fps = 58\n");
    assert_eq!((d.playhead_position, d.detail_height, d.target_fps), (100, 3, 60));
    let d = parse_display_config("[display]\n");
    assert_eq!((d.playhead_position, d.detail_height, d.target_fps), (20, 5, 120));
    let d = parse_display_config("this is = = not toml");
    assert_eq!((d.playhead_position, d.detail_height, d.target_fps), (20, 5, 60));
}

#[test]
fn keymap_later_entries_win_and_bad_ones_are_skipped() {
    let base = parse_keymap("[keys]\nquit = \"q\"\nhelp = [\"h\", \"space+h\"]\n", Keymap::new());
    assert_eq!(base.get(KeyBinding::Key(Key::Char('q'))), Some(Action::Quit));
    assert_eq!(base.get(KeyBinding::SpaceChord(Key::Char('h'))), Some(Action::Help));
    let over = parse_keymap("[keys]\nzoom_in = \"q\"\nbogus = \"z\"\npitch_up = 5\n", base);
    assert_eq!(over.get(KeyBinding::Key(Key::Char('q'))), Some(Action::ZoomIn));
    assert_eq!(over.get(KeyBinding::Key(Key::Char('z'))), None);
    assert_eq!(over.get(KeyBinding::Key(Key::Char('h'))), Some(Action::Help));
    assert_eq!(over.bare_key_char(Action::Help), Some('h'));
    assert_eq!(over.bare_key_char(Action::Quit), None);
}

#[test]
fn jump_sizes() {
    assert_eq!(jump_beats(Action::JumpForward64b), Some(256));
    assert_eq!(jump_beats(Action::JumpBackward1b), Some(-4));
    assert_eq!(jump_beats(Action::JumpForward1bt), Some(1));
    assert_eq!(jump_beats(Action::Quit), None);
}

#[test]
fn tag_editor_paths() {
    let tags = vec!["  Artist ".to_string(), " Title".to_string(), "Album".to_string()];
    let mut st = TagEditorState::for_track("/music/old name.flac", Some(tags)).unwrap();
    assert_eq!(st.dir, "/music");
    assert_eq!(st.current_stem, "old name");
    assert_eq!(st.extension, "flac");
    assert_eq!(st.current_path(), "/music/old name.flac");
    assert_eq!(st.preview(), "Title - Artist");
    assert_eq!(st.target_path(), "/music/Title - Artist.flac");
    st.active_field = 2;
    st.active_field_mut().0.push_str(" II");
    assert_eq!(st.fields[2].0, "Album II");
    assert!(TagEditorState::for_track("/music/x.mp3", None).is_none());
}

fn panel(n: usize) -> PlaylistPanel<u32> {
    let mut p = PlaylistPanel::new("/pl/set.rpl".to_string(), (0..n as u32).collect());
    let outcomes = (0..n).map(|_| Resolved::Found(None)).collect();
    p.recompute_status(outcomes);
    p
}

#[test]
fn panel_statuses_follow_resolution() {
    let mut p = PlaylistPanel::new("/pl/set.rpl".to_string(), vec![10u32, 20, 30]);
    assert_eq!(p.status_at(0), EntryStatus::Unavailable);
    let changed = p.recompute_status(vec![Resolved::Found(Some(11)), Resolved::Unavailable, Resolved::NeedsConfirmation]);
    assert!(changed);
    assert_eq!(p.entries, vec![11, 20, 30]);
    assert_eq!(p.status, vec![EntryStatus::Found, EntryStatus::Unavailable, EntryStatus::NeedsConfirmation]);
    assert!(!p.recompute_status(vec![Resolved::Found(None), Resolved::Found(None), Resolved::Unavailable]));
    assert_eq!(p.next_up(None), Some(0));
    assert_eq!(p.next_up(Some(0)), Some(1));
    assert_eq!(p.next_up(Some(1)), None);
}

#[test]
fn panel_moves_undo_each_other() {
    let mut p = panel(4);
    p.cursor = 1;
    p.move_down();
    assert_eq!((p.cursor, p.entries.clone()), (2, vec![0, 2, 1, 3]));
    p.move_up();
    assert_eq!((p.cursor, p.entries.clone()), (1, vec![0, 1, 2, 3]));
    p.cursor = 3;
    p.move_down();
    assert_eq!(p.cursor, 3);
}

#[test]
fn panel_remove_and_insert() {
    let mut p = panel(3);
    p.cursor = 2;
    p.remove_at_cursor();
    assert_eq!((p.cursor, p.entries.clone(), p.status.len()), (1, vec![0, 1], 2));
    p.insert_at(1, vec![7, 8]);
    assert_eq!(p.entries, vec![0, 7, 8, 1]);
    assert_eq!(p.status, vec![EntryStatus::Found, EntryStatus::Unavailable, EntryStatus::Unavailable, EntryStatus::Found]);
    assert_eq!(p.cursor, 1);
    p.insert_at(99, vec![9]);
    assert_eq!(p.entries, vec![0, 7, 8, 1, 9]);
    assert_eq!(p.cursor, 4);
    p.cursor_down();
    assert_eq!(p.cursor, 4);
    p.cursor_up();
    assert_eq!(p.cursor, 3);
}

#[test]
fn playing_entry_is_found_again_by_hash() {
    let old = vec!["a".to_string(), "b".to_string(), "c".to_string()];
    let new = vec!["c".to_string(), "a".to_string()];
    assert_eq!(readopt_index(&old, 0, &new), 1);
    assert_eq!(readopt_index(&old, 1, &new), 1);
    assert_eq!(readopt_index(&old, 2, &new), 0);
    assert_eq!(readopt_index(&old, 5, &Vec::new()), 0);
}

#[test]
fn active_card_follows_the_scroll() {
    let starts = vec![0usize, 5, 12];
    assert_eq!(confirm_active_card(0, &starts), 0);
    assert_eq!(confirm_active_card(1, &starts), 1);
    assert_eq!(confirm_active_card(5, &starts), 1);
    assert_eq!(confirm_active_card(6, &starts), 2);
    assert_eq!(confirm_active_card(40, &starts), 2);
    assert_eq!(confirm_active_card(3, &Vec::new()), 0);
    assert!(dim_browser(PanelKind::Browse) && !dim_browser(PanelKind::EditBrowser));
}

#[test]
fn tokens_fold_case_accents_and_a_leading_the() {
    assert_eq!(comparison_tokens("The Beatles"), vec!["beatles".to_string()]);
    assert_eq!(comparison_tokens("Beyoncé"), vec!["beyonce".to_string()]);
    assert_eq!(comparison_tokens("01 - Come Together"), vec!["01".to_string(), "come".to_string(), "together".to_string()]);
    assert_eq!(comparison_tokens("closer! closer"), vec!["closer".to_string()]);
    assert!(comparison_tokens("").is_empty());
    assert_eq!(fold_accent('ø'), 'o');
    assert_eq!(fold_accent('x'), 'x');
    let a = comparison_tokens("01 - Come Together");
    let b = comparison_tokens("Come Together");
    assert_eq!(field_overlap(&a, &b), (2, 3));
}

#[test]
fn backups_sit_hidden_beside_the_playlist() {
    assert_eq!(backup_path("/pl/set.rpl", 1), "/pl/.set.rpl.bak1");
    assert_eq!(backup_path("set.rpl", 3), ".set.rpl.bak3");
}

#[test]
fn descriptions_change_only_when_tags_differ() {
    let d = Description { artist: "A".into(), title: "T".into(), ..Default::default() };
    let same = Description { artist: "A".into(), title: "T".into(), ..Default::default() };
    assert!(changed_description(&d, Some(same)).is_none());
    let other = Description { artist: "A".into(), title: "T2".into(), ..Default::default() };
    assert_eq!(changed_description(&d, Some(other)).map(|x| x.title), Some("T2".to_string()));
    assert!(changed_description(&d, None).is_none());
}

#[test]
fn hash_confirms_only_the_same_payload_and_method() {
    let mut f = Vec::new();
    f.extend_from_slice(b"RIFF");
    f.extend_from_slice(&40u32.to_le_bytes());
    f.extend_from_slice(b"WAVE");
    f.extend_from_slice(b"data");
    f.extend_from_slice(&4u32.to_le_bytes());
    f.extend_from_slice(&[1, 2, 3, 4]);
    assert!(can_confirm(&f));
    let h = blake3::hash(&[1, 2, 3, 4]).to_hex().to_string();
    assert!(hash_confirms("blake3", 1, &h, Some(&f)));
    assert!(!hash_confirms("blake3", 2, &h, Some(&f)));
    assert!(!hash_confirms("sha256", 1, &h, Some(&f)));
    assert!(!hash_confirms("blake3", 1, "00", Some(&f)));
    assert!(!hash_confirms("blake3", 1, &h, None));
}

#[test]
fn tick_rows_and_braille_shifts() {
    assert_eq!(compose_shared_tick_row(&[1, 0], &[0, 2], 3), vec![0x1A, 0x02 | 0x20, 0x64]);
    assert_eq!(compose_shared_tick_row(&[], &[], 2), vec![0, 0]);
    assert_eq!(shift_braille_half(0xFF, 0x00), 0x47);
    assert_eq!(shift_braille_half(0x00, 0xFF), 0xB8);
}

#[test]
fn words_wrap_greedily() {
    assert_eq!(wrap_words("the quick brown fox", 10), vec!["the quick", "brown fox"]);
    assert_eq!(wrap_words("abcdefghij", 4), vec!["abcd", "efgh", "ij"]);
    assert_eq!(wrap_words("   ", 5), vec![""]);
    assert_eq!(wrap_words("as is", 0), vec!["as is"]);
}

#[test]
fn detail_map_geometry() {
    let m = DetailMap::new(1000, 0, 80);
    assert_eq!(m.samples_per_col(), 1);
    assert_eq!(m.buf_cols(), 80);
    assert_eq!(DetailMap::col_of_screen_half(-1), 0);
    assert_eq!(DetailMap::col_of_screen_half(-2), -1);
    assert_eq!(DetailMap::col_of_screen_half(3), 2);
    assert_eq!(m.dot_in_buffer(-80), Some((0, false)));
    assert_eq!(m.dot_in_buffer(-79), Some((0, true)));
    assert_eq!(m.dot_in_buffer(80), None);
    assert_eq!(m.viewport(0, 20, 40), Some(Viewport { start: 20, sub_col: false }));
    assert_eq!(m.viewport(-3, 20, 40), Some(Viewport { start: 18, sub_col: true }));
    assert_eq!(m.viewport(0, 20, 80), None);
}

#[test]
fn session_flushes_only_once_idle() {
    let mut s = SessionState::from_file("/state/session.json".into(), SessionFile::default(), true);
    assert_eq!(s.get_art_bright_idx(), default_art_bright_idx());
    assert!(s.flush_if_idle(10_000).is_none());
    s.set_latency(25, 1_000);
    s.set_workspace("/music", 1_100);
    assert!(s.flush_if_idle(1_500).is_none());
    let f = s.flush_if_idle(2_100).expect("idle for a second");
    assert_eq!(f.audio_latency_ms, 25);
    assert_eq!(f.browser_workspace.as_deref(), Some("/music"));
    assert!(s.flush_if_idle(9_000).is_none());
    assert!(idle_elapsed(Some(0), 1_000) && !idle_elapsed(Some(0), 999) && !idle_elapsed(None, 5));
    let gone = SessionState::from_file("/s".into(), SessionFile { browser_workspace: Some("/w".into()), ..SessionFile::default() }, false);
    assert!(gone.workspace().is_none());
}

#[test]
fn session_settings_read_back_and_save() {
    let mut s = SessionState::from_file("/s".into(), SessionFile::default(), true);
    s.set_art_bright_idx(2, 10);
    s.set_latency(-15, 20);
    assert_eq!(s.get_art_bright_idx(), 2);
    assert_eq!(s.get_latency(), -15);
    let f = s.save();
    assert_eq!((f.art_bright_idx, f.audio_latency_ms), (2, -15));
}

#[test]
fn storage_locations() {
    assert_eq!(home_for(Some("/x"), Some("/home/u"), ".config"), "/x/deck");
    assert_eq!(config_dir(None, Some("/home/u")), "/home/u/.config/deck");
    assert_eq!(data_dir(None, Some("/home/u")), "/home/u/.local/share/deck");
    assert_eq!(state_dir(None, None), "./.local/state/deck");
    assert_eq!(dir("/s"), "/s/error_reports");
    assert_eq!(panic_log_path("/s"), "/s/panic.log");
    assert_eq!(track_data_path("/d"), "/d/track-data.json");
    assert_eq!(session_path("/s"), "/s/session.json");
    assert_eq!(mirror_path_for("/d/track-data.json", Some("/ws")).as_deref(), Some("/ws/track-data.json"));
    assert_eq!(mirror_path_for("/d/track-data.json", Some("/d")), None);
    assert_eq!(mirror_path_for("/d/track-data.json", None), None);
}

#[test]
fn tag_editor_keys_edit_the_active_field() {
    let tags: Vec<String> = vec!["Artist", "Title", "", "", "", "", ""].into_iter().map(String::from).collect();
    let mut st = TagEditorState::for_track("/m/x.mp3", Some(tags)).unwrap();
    st.edit_key(EditorKey::End);
    assert_eq!(st.fields[0].1, 6);
    st.edit_key(EditorKey::Backspace);
    assert_eq!(st.fields[0], ("Artis".to_string(), 5));
    st.edit_key(EditorKey::Home);
    st.edit_key(EditorKey::Char('X'));
    assert_eq!(st.fields[0], ("XArtis".to_string(), 1));
    st.edit_key(EditorKey::Delete);
    assert_eq!(st.fields[0], ("Xrtis".to_string(), 1));
    st.edit_key(EditorKey::Left);
    st.edit_key(EditorKey::Left);
    assert_eq!(st.fields[0].1, 0);
    st.edit_key(EditorKey::BackTab);
    assert_eq!(st.active_field, 6);
    st.edit_key(EditorKey::Tab);
    st.edit_key(EditorKey::Down);
    assert_eq!(st.active_field, 1);
}

#[test]
fn saving_trims_and_plans_the_rename() {
    let tags: Vec<String> = vec![" Artist ", " Title ", "x", "", "", "", ""].into_iter().map(String::from).collect();
    let mut st = TagEditorState::for_track("/m/old.mp3", Some(tags)).unwrap();
    st.fields[1].1 = 7;
    let plan = st.prepare_save().expect("artist and title are set");
    assert_eq!(st.fields[0].0, "Artist");
    assert_eq!(st.fields[1], ("Title".to_string(), 5));
    assert_eq!(plan.stem, "Title - Artist");
    assert!(plan.needs_rename);
    assert_eq!(plan.old, "/m/old.mp3");
    assert_eq!(plan.target, "/m/Title - Artist.mp3");
    assert_eq!(plan.name, "Title \u{2013} Artist");
    assert!(st.settle_save(plan, true).is_none());
    assert_eq!(st.collision_error.as_deref(), Some("already exists: Title - Artist.mp3"));
    let plan = st.prepare_save().unwrap();
    assert!(st.settle_save(plan, false).is_some());
    assert!(st.collision_error.is_none());
    let blank: Vec<String> = vec!["  ", "Title", "", "", "", "", ""].into_iter().map(String::from).collect();
    let mut st = TagEditorState::for_track("/m/old.mp3", Some(blank)).unwrap();
    assert!(st.prepare_save().is_none());
    assert_eq!(st.fields[0].0, "  ");
}

#[test]
fn stamps_sort_in_time_order() {
    let times = [0u64, 59, 60, 3_599, 3_600, 86_399, 86_400, 951_782_400, 1_700_000_000, 4_102_444_800];
    for w in times.windows(2) {
        assert!(deck::error_reports::utc_stamp(w[0]) < deck::error_reports::utc_stamp(w[1]));
    }
}

#[test]
fn playhead_mark_lands_on_centre_column() {
    let m = DetailMap::new(1_000_000, 882, 1000);
    for delta_half in -40i64..40 {
        for centre in [0usize, 20, 39] {
            let disp_half = delta_half + 2 * (1000 / 2);
            assert_eq!(m.content_col(disp_half, delta_half, centre), centre as i64);
        }
    }
}

#[test]
fn content_col_steps_monotonically_under_forward_scroll() {
    let m = DetailMap::new(1_000_000, 882, 1000);
    let mark = 1004;
    let mut last = i64::MAX;
    for delta_half in -30i64..30 {
        let col = m.content_col(mark, delta_half, 20);
        assert!(col <= last, "column went right while scrolling forward");
        last = col;
    }
    // One dot of scroll moves the mark by at most one column.
    assert_eq!(m.content_col(mark, 0, 20), 22);
    assert_eq!(m.content_col(mark, 1, 20), 22);
    assert_eq!(m.content_col(mark, 2, 20), 21);
}

#[test]
fn playhead_anchored_col_depends_on_the_offset_only() {
    assert_eq!(DetailMap::playhead_anchored_col(15, 20), 28);
    assert_eq!(DetailMap::playhead_anchored_col(-15, 20), 13);
    assert_eq!(DetailMap::playhead_anchored_col(0, 20), 20);
}

#[test]
fn tick_window_shifts_by_a_dot() {
    let tick = vec![0u8, 0xB8, 0, 0x47, 0, 0xB8, 0x47, 0];
    // Unshifted: the buffer's own cells.
    let vp = Some(Viewport { start: 1, sub_col: false });
    assert_eq!(extract_tick_viewport(&tick, vp, 4), vec![0xB8, 0, 0x47, 0]);
    // Shifted by a dot: right ticks become left ticks of the same column,
    // left ticks become right ticks of the column before.
    let vp = Some(Viewport { start: 1, sub_col: true });
    assert_eq!(extract_tick_viewport(&tick, vp, 5), vec![0x47, 0xB8, 0, 0, 0xB8]);
    // No viewport: a blank row.
    assert_eq!(extract_tick_viewport(&tick, None, 3), vec![0, 0, 0]);
}

#[test]
fn braille_columns_light_their_dot_spans() {
    let spans = vec![Some((0usize, 3usize)), Some((1, 3)), None];
    assert_eq!(render_braille(&spans, 1, 4), vec![vec![0xFF, 0x36, 0, 0]]);
    // Two cell rows: a span from dot 2 past the bottom, pulled one short of
    // the mirror of its top.
    let spans = vec![Some((2usize, 9usize))];
    assert_eq!(render_braille(&spans, 2, 1), vec![vec![0xE4], vec![0x3F]]);
    // No rows or no columns: an empty grid of the right shape.
    assert_eq!(render_braille(&spans, 0, 3), Vec::<Vec<u8>>::new());
    assert_eq!(render_braille(&spans, 2, 0), vec![Vec::<u8>::new(), Vec::new()]);
}

/// A stand-in for a track's stored analysis.
#[derive(Debug, Clone, PartialEq)]
struct Memory {
    bpm: f32,
    name: String,
}

fn memory(bpm: f32, name: &str) -> Memory {
    Memory { bpm, name: name.to_string() }
}

#[test]
fn workspace_copy_wins_on_import_and_local_entries_stay() {
    let mut db: TrackDatabase<Memory> = TrackDatabase::load("/data/track-data.json".to_string(), Vec::new());
    db.set("Y".into(), memory(120.0, "y"), 10);
    db.set("X".into(), memory(100.0, "x-local-stale"), 20);
    // A library carried from elsewhere: a fresh X and a new Z.
    let incoming = vec![("X".to_string(), memory(140.0, "x-from-workspace")), ("Z".to_string(), memory(90.0, "z"))];
    // Without a mirror nothing is adopted.
    assert!(!db.sync_with_mirror(incoming.clone()));
    assert_eq!(db.get("Z"), None);
    db.set_mirror(Some("/workspace"));
    assert_eq!(db.mirror_path(), Some("/workspace/track-data.json"));
    assert!(db.sync_with_mirror(incoming));
    assert_eq!(db.get("Y").unwrap().bpm, 120.0, "local-only entry kept");
    assert_eq!(db.get("Z").unwrap().bpm, 90.0, "workspace-only entry added");
    assert_eq!(db.get("X").unwrap().name, "x-from-workspace", "workspace wins on conflict");
    // Both copies hold the union, in key order.
    let keys: Vec<&str> = db.entries().iter().map(|(k, _)| k.as_str()).collect();
    assert_eq!(keys, vec!["X", "Y", "Z"]);
}

#[test]
fn track_database_keeps_key_order_and_later_entries_win() {
    let read = vec![
        ("b".to_string(), memory(1.0, "b1")),
        ("a".to_string(), memory(2.0, "a")),
        ("b".to_string(), memory(3.0, "b2")),
    ];
    let mut db = TrackDatabase::load("/d/track-data.json".to_string(), read);
    assert_eq!(db.get("b").unwrap().name, "b2");
    assert_eq!(db.entries().len(), 2);
    assert_eq!(db.entries()[0].0, "a");
    assert_eq!(db.path(), "/d/track-data.json");
    // The mirror is never the canonical file itself.
    db.set_mirror(Some("/d"));
    assert_eq!(db.mirror_path(), None);
    // Written only once idle for a second.
    assert!(!db.flush_if_idle(5_000));
    db.set("c".into(), memory(4.0, "c"), 1_000);
    assert!(!db.flush_if_idle(1_999));
    assert!(db.flush_if_idle(2_000));
    assert!(!db.flush_if_idle(3_000));
}

// The detail map's float front: a position's dot from the anchor, and its
// dot from the buffer's left edge, rounded to the nearest half column.
fn map() -> DetailMap {
    DetailMap::new(1_000_000, 882, 1000)
}

fn dot(pos: f64) -> i64 {
    ((pos - 1_000_000.0) / (882.0 / 2.0)).round() as i64
}

fn dot_from_left(pos: f64) -> i64 {
    let view_start = 1_000_000.0 - (1000 / 2 * 882) as f64;
    ((pos - view_start) / (882.0 / 2.0)).round() as i64
}

#[test]
fn cue_equals_playhead_at_equal_samples() {
    let m = map();
    for i in 0..500 {
        let pos = 995_000.0 + i as f64 * 33.7;
        for centre in [0usize, 20, 39] {
            assert_eq!(m.content_col(dot_from_left(pos), dot(pos), centre), centre as i64, "pos {pos:?} centre {centre}");
        }
    }
}

#[test]
fn content_col_steps_monotonically_under_scroll() {
    let m = map();
    let mark = 1_002_000.0;
    let mut last = i64::MAX;
    for i in 0..2000 {
        let disp = 998_000.0 + i as f64 * 13.1;
        let col = m.content_col(dot_from_left(mark), dot(disp), 20);
        assert!(col <= last, "column went right while scrolling forward");
        last = col;
    }
}

#[test]
fn playhead_anchored_col_is_scroll_invariant() {
    let delta: f64 = 882.0 * 7.3;
    let offset_half = (delta / (882.0 / 2.0)).round() as i64;
    let col0 = DetailMap::playhead_anchored_col(offset_half, 20);
    for i in 0..2000 {
        let _disp = 998_000.0 + i as f64 * 13.1;
        assert_eq!(DetailMap::playhead_anchored_col(offset_half, 20), col0);
    }
}

#[test]
fn viewport_matches_content_col_at_playhead() {
    let m = map();
    for i in 0..300 {
        let disp = 999_000.0 + i as f64 * 57.3;
        if let Some(vp) = m.viewport(dot(disp), 20, 100) {
            let col = m.content_col(dot_from_left(disp), dot(disp), 20);
            assert_eq!(col, 20);
            assert!(vp.start + 100 <= 1000);
        }
    }
}

/// Proportion of comparison tokens two fields share; zero when either has none.
fn field_similarity(a: &str, b: &str) -> f64 {
    let (a, b) = (comparison_tokens(a), comparison_tokens(b));
    if a.is_empty() || b.is_empty() {
        return 0.0;
    }
    let (shared, union) = field_overlap(&a, &b);
    shared as f64 / union as f64
}

#[test]
fn near_miss_forms_score_as_matches() {
    // Leading article, punctuation, accents and track-number prefixes are noise.
    assert_eq!(field_similarity("The Beatles", "beatles"), 1.0);
    assert_eq!(field_similarity("Beyoncé", "Beyonce"), 1.0);
    assert_eq!(field_similarity("Sigur Rós", "sigur ros"), 1.0);
    assert_eq!(field_similarity("Closer", "closer!"), 1.0);
    // Extra tokens cost, but still score far above unrelated text.
    assert!(field_similarity("01 - Come Together", "Come Together") > 0.5);
    assert_eq!(field_similarity("Come Together", "So What"), 0.0);
    // A missing tag is not evidence of a match.
    assert_eq!(field_similarity("", ""), 0.0);
}

#[test]
fn keymap_warnings_name_what_was_skipped() {
    let text = "[keys]\nzoom_in = \"q\"\nbogus = \"z\"\npitch_up = 5\nhelp = [\"h\", \"space+nope\", 3, \"ctrl+x\"]\n";
    let got: Vec<(ConfigWarningKind, String)> = keymap_warnings(text).into_iter().map(|w| (w.kind, w.name)).collect();
    // Entries come in the parsed table's (sorted) order.
    assert_eq!(
        got,
        vec![
            (ConfigWarningKind::UnknownFunction, "bogus".to_string()),
            (ConfigWarningKind::UnknownKey, "nope".to_string()),
            (ConfigWarningKind::UnknownKey, "ctrl+x".to_string()),
            (ConfigWarningKind::BadValue, "pitch_up".to_string()),
        ]
    );
    let broken: Vec<ConfigWarningKind> = keymap_warnings("[keys").into_iter().map(|w| w.kind).collect();
    assert_eq!(broken, vec![ConfigWarningKind::ParseFailed]);
    assert!(keymap_warnings("[display]\ntarget_fps = 60\n").is_empty());
    assert!(keymap_warnings("").is_empty());
}

#[test]
fn moving_in_an_empty_playlist_does_nothing() {
    let mut p: PlaylistPanel<u32> = PlaylistPanel::new("/p.rpl".to_string(), Vec::new());
    p.move_up();
    p.move_down();
    assert_eq!(p.cursor, 0);
    assert!(p.entries.is_empty());
}
