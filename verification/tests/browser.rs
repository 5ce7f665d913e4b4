use deck::browser::{
    is_audio, is_audio_extension, relative_path, BrowserAction, BrowserCommand, BrowserEntry,
    BrowserKey, BrowserMode, BrowserResult, BrowserState, EntryKind, RawEntry, command_of,
};
use deck::ranking::rank_by_score;

fn make_state(kinds: &[EntryKind]) -> BrowserState {
    let entries = kinds
        .iter()
        .enumerate()
        .map(|(i, k)| BrowserEntry {
            name: format!("entry{i}"),
            path: format!("/test/entry{i}"),
            kind: *k,
        })
        .collect();
    BrowserState::with_entries("/test".to_string(), entries)
}

#[test]
fn test_is_audio_known_extensions() {
    assert!(is_audio("track.flac"));
    assert!(is_audio("track.mp3"));
    assert!(is_audio("track.ogg"));
    assert!(is_audio("track.wav"));
}

#[test]
fn test_is_audio_case_insensitive() {
    assert!(is_audio("track.FLAC"));
    assert!(is_audio("track.Mp3"));
}

#[test]
fn test_is_audio_non_audio() {
    assert!(!is_audio("readme.txt"));
    assert!(!is_audio("noextension"));
    assert!(!is_audio("image.png"));
}

#[test]
fn dotfiles_and_directories_named_like_audio() {
    assert!(!is_audio(".flac"));
    assert!(is_audio("/music/set.m4a"));
    assert!(is_audio("/music/a.b.OPUS"));
    assert!(!is_audio("/music/flac/"));
    assert!(is_audio_extension("aac"));
    assert!(!is_audio_extension("AAC"));
}

#[test]
fn test_dirs_and_audio_are_selectable() {
    assert!(BrowserState::is_selectable(&EntryKind::Dir));
    assert!(BrowserState::is_selectable(&EntryKind::Audio));
    assert!(!BrowserState::is_selectable(&EntryKind::Other));
}

#[test]
fn test_cursor_down_skips_other() {
    let mut state = make_state(&[EntryKind::Audio, EntryKind::Other, EntryKind::Audio]);
    state.cursor = 0;
    state.move_down();
    assert_eq!(state.cursor, 2);
}

#[test]
fn test_cursor_up_skips_other() {
    let mut state = make_state(&[EntryKind::Audio, EntryKind::Other, EntryKind::Audio]);
    state.cursor = 2;
    state.move_up();
    assert_eq!(state.cursor, 0);
}

#[test]
fn test_cursor_down_does_not_pass_end() {
    let mut state = make_state(&[EntryKind::Audio, EntryKind::Audio]);
    state.cursor = 1;
    state.move_down();
    assert_eq!(state.cursor, 1);
}

#[test]
fn test_cursor_up_does_not_pass_start() {
    let mut state = make_state(&[EntryKind::Audio, EntryKind::Audio]);
    state.cursor = 0;
    state.move_up();
    assert_eq!(state.cursor, 0);
}

#[test]
fn down_then_up_returns_to_the_start() {
    let mut state = make_state(&[EntryKind::Dir, EntryKind::Other, EntryKind::Other, EntryKind::Audio]);
    state.cursor = 0;
    state.move_down();
    assert_eq!(state.cursor, 3);
    state.move_up();
    assert_eq!(state.cursor, 0);
}

#[test]
fn move_mode_stops_only_on_folders() {
    let mut state = make_state(&[EntryKind::Audio, EntryKind::Dir, EntryKind::Audio, EntryKind::Dir]);
    state.mode = BrowserMode::Move;
    state.snap_to_cursor_stop();
    assert_eq!(state.cursor, 1);
    state.move_down();
    assert_eq!(state.cursor, 3);
    state.move_down();
    assert_eq!(state.cursor, 3);
    assert_eq!(state.primary_mode(), BrowserMode::Command);
}

#[test]
fn snap_skips_the_parent_entry() {
    let entries = vec![
        BrowserEntry { name: "..".into(), path: "/".into(), kind: EntryKind::Dir },
        BrowserEntry { name: "notes.txt".into(), path: "/x/notes.txt".into(), kind: EntryKind::Other },
        BrowserEntry { name: "a.flac".into(), path: "/x/a.flac".into(), kind: EntryKind::Audio },
    ];
    let mut state = BrowserState::with_entries("/x".into(), entries);
    state.snap_to_cursor_stop();
    assert_eq!(state.cursor, 2);
    assert_eq!(state.highlighted_audio_path(), Some("/x/a.flac".to_string()));
}

#[test]
fn listing_groups_and_sorts_case_insensitively() {
    let raw = vec![
        RawEntry { name: "zeta.mp3".into(), path: "/m/zeta.mp3".into(), is_dir: false },
        RawEntry { name: "Beta".into(), path: "/m/Beta".into(), is_dir: true },
        RawEntry { name: "alpha.txt".into(), path: "/m/alpha.txt".into(), is_dir: false },
        RawEntry { name: "Alpha.flac".into(), path: "/m/Alpha.flac".into(), is_dir: false },
        RawEntry { name: "albums".into(), path: "/m/albums".into(), is_dir: true },
    ];
    let state = BrowserState::from_listing("/m".into(), raw, None);
    let names: Vec<&str> = state.entries.iter().map(|e| e.name.as_str()).collect();
    assert_eq!(names, vec!["..", "albums", "Beta", "Alpha.flac", "zeta.mp3", "alpha.txt"]);
    assert_eq!(state.entries[0].path, "/");
    // The cursor starts on the first selectable entry that is not "..".
    assert_eq!(state.cursor, 1);
}

#[test]
fn root_listing_has_no_parent_entry() {
    let state = BrowserState::from_listing("/".into(), Vec::new(), None);
    assert!(state.entries.is_empty());
    assert_eq!(state.cursor, 0);
}

#[test]
fn relative_path_inside_and_outside_the_workspace() {
    assert_eq!(relative_path("/music", "/music/house/deep"), "./house/deep");
    assert_eq!(relative_path("/music", "/music"), "./");
    assert_eq!(relative_path("/music/house", "/music/techno"), "../techno");
}

#[test]
fn keys_mean_different_things_per_mode() {
    assert_eq!(command_of(BrowserMode::Command, BrowserKey::Char('j')), BrowserCommand::NavDown);
    assert_eq!(command_of(BrowserMode::Search, BrowserKey::Char('j')), BrowserCommand::Type('j'));
    assert_eq!(command_of(BrowserMode::Move, BrowserKey::Char('y')), BrowserCommand::ChooseHere);
    assert_eq!(command_of(BrowserMode::Command, BrowserKey::Char('y')), BrowserCommand::Ignore);
    assert_eq!(command_of(BrowserMode::Command, BrowserKey::Tab), BrowserCommand::SearchMode);
}

#[test]
fn enter_descends_into_a_directory_and_selects_audio() {
    let mut state = make_state(&[EntryKind::Dir, EntryKind::Audio]);
    match state.handle_key(BrowserKey::Enter) {
        BrowserAction::Navigate(p) => assert_eq!(p, "/test/entry0"),
        _ => panic!("expected to navigate"),
    }
    state.cursor = 1;
    match state.handle_key(BrowserKey::Char('l')) {
        BrowserAction::Finish(BrowserResult::Selected(p)) => assert_eq!(p, "/test/entry1"),
        _ => panic!("expected a selection"),
    }
    match state.handle_key(BrowserKey::Char('h')) {
        BrowserAction::Navigate(p) => assert_eq!(p, "/"),
        _ => panic!("expected to go up"),
    }
}

#[test]
fn workspace_is_set_and_cleared() {
    let mut state = make_state(&[EntryKind::Audio]);
    match state.handle_key(BrowserKey::Char('@')) {
        BrowserAction::Finish(BrowserResult::WorkspaceSet(p)) => assert_eq!(p, "/test"),
        _ => panic!("expected the workspace to be set"),
    }
    assert_eq!(state.workspace.as_deref(), Some("/test"));
    match state.handle_key(BrowserKey::Char('\'')) {
        BrowserAction::Finish(BrowserResult::WorkspaceCleared) => {}
        _ => panic!("expected the workspace to be cleared"),
    }
    assert!(state.workspace.is_none());
}

#[test]
fn typing_a_term_searches_the_listing() {
    let entries = vec![
        BrowserEntry { name: "..".into(), path: "/".into(), kind: EntryKind::Dir },
        BrowserEntry { name: "deep house.flac".into(), path: "/m/deep house.flac".into(), kind: EntryKind::Audio },
        BrowserEntry { name: "techno.mp3".into(), path: "/m/techno.mp3".into(), kind: EntryKind::Audio },
        BrowserEntry { name: "house notes.txt".into(), path: "/m/house notes.txt".into(), kind: EntryKind::Other },
    ];
    let mut state = BrowserState::with_entries("/m".into(), entries);
    state.handle_key(BrowserKey::Char('/'));
    assert_eq!(state.mode, BrowserMode::Search);
    for c in "house".chars() {
        assert!(matches!(state.handle_key(BrowserKey::Char(c)), BrowserAction::Stay));
    }
    assert_eq!(state.search_term, "house");
    assert_eq!(state.search_results, Some(vec!["/m/deep house.flac".to_string()]));
    assert_eq!(state.highlighted_audio_path(), Some("/m/deep house.flac".to_string()));
    for _ in 0..5 {
        state.handle_key(BrowserKey::Backspace);
    }
    assert_eq!(state.search_results, None);
}

#[test]
fn workspace_search_asks_for_files_first() {
    let mut state = make_state(&[EntryKind::Audio]);
    state.workspace = Some("/ws".into());
    state.mode = BrowserMode::Search;
    assert!(matches!(state.handle_key(BrowserKey::Char('b')), BrowserAction::GatherFiles));
    assert!(state.wants_workspace_files());
    state.provide_workspace_files(vec!["/ws/a/beat.flac".into(), "/ws/x.mp3".into()]);
    state.update_search();
    assert_eq!(state.search_results, Some(vec!["/ws/a/beat.flac".to_string()]));
}

#[test]
fn ranking_is_best_first_and_stable() {
    let order = rank_by_score(&vec![Some(3), None, Some(9), Some(3), Some(1)]);
    assert_eq!(order, vec![2, 0, 3, 4]);
    assert!(rank_by_score(&vec![None, None]).is_empty());
}
