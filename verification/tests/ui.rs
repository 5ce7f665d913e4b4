use deck::config::{Action, Key, KeyBinding, Keymap};
use deck::ui::{layout_rows, ui_step, KeyContext, KeyInput, KeyKind, UiAction, UiEvent, UiState};

fn keymap() -> Keymap {
    let mut m = Keymap::new();
    m.insert(KeyBinding::Key(Key::Esc), Action::Quit);
    m.insert(KeyBinding::Key(Key::Char('?')), Action::Help);
    m.insert(KeyBinding::Key(Key::Char('2')), Action::SelectDeck2);
    m.insert(KeyBinding::Key(Key::Char('c')), Action::NudgeBackward);
    m.insert(KeyBinding::Key(Key::Char('d')), Action::NudgeForward);
    m.insert(KeyBinding::Key(Key::Char('v')), Action::BaseBpmIncrease);
    m.insert(KeyBinding::SpaceChord(Key::Char('g')), Action::CuePlay);
    m.insert(KeyBinding::Key(Key::Char('g')), Action::PlayPause);
    m.insert(KeyBinding::SpaceChord(Key::Char('=')), Action::SwapDeck1Deck2);
    m.insert(KeyBinding::Key(Key::Char(']')), Action::LatencyIncrease);
    m.insert(KeyBinding::Key(Key::Char('+')), Action::FpsIncrease);
    m
}

fn state() -> UiState {
    UiState {
        keymap: keymap(),
        selected_deck: 0,
        help_open: false,
        space_held: false,
        space_suppressed: false,
        quit_asked_at: None,
        vinyl: false,
        latency_ms: 245,
        art_bright_idx: 1,
        zoom_idx: 2,
        detail_height: 5,
        target_fps: 50,
        ramp_started: None,
        ramp_last: None,
    }
}

fn ctx(now_ms: u64) -> KeyContext {
    KeyContext {
        now_ms,
        tag_editor_open: false,
        browser_open: false,
        any_playing: false,
        notification: false,
        bpm_pending: false,
        rename_offer: false,
        max_detail_height: 8,
    }
}

fn press(c: char) -> KeyInput {
    KeyInput { key: Key::Char(c), kind: KeyKind::Press, alt: false, ctrl: false }
}

fn key(s: &mut UiState, k: KeyInput, c: KeyContext) -> Vec<UiAction> {
    ui_step(s, UiEvent::Key(k, c))
}

#[test]
fn space_chords_fire_once_until_space_is_released() {
    let mut s = state();
    assert_eq!(key(&mut s, press('g'), ctx(0)), vec![UiAction::Perform(Action::PlayPause)]);
    assert_eq!(key(&mut s, press(' '), ctx(0)), vec![]);
    assert!(s.space_held);
    assert_eq!(key(&mut s, press('g'), ctx(0)), vec![UiAction::CuePlay]);
    // The chord used Space up: repeats of Space stay disarmed until released.
    assert!(!s.space_held && s.space_suppressed);
    key(&mut s, KeyInput { kind: KeyKind::Repeat, ..press(' ') }, ctx(0));
    assert!(!s.space_held);
    assert_eq!(key(&mut s, press('g'), ctx(0)), vec![UiAction::Perform(Action::PlayPause)]);
    key(&mut s, KeyInput { kind: KeyKind::Release, ..press(' ') }, ctx(0));
    key(&mut s, press(' '), ctx(0));
    // A chord that swaps decks carries the selection along.
    assert_eq!(key(&mut s, press('='), ctx(0)), vec![UiAction::Perform(Action::SwapDeck1Deck2)]);
    assert_eq!(s.selected_deck, 1);
}

#[test]
fn quitting_while_playing_asks_first() {
    let mut s = state();
    let esc = KeyInput { key: Key::Esc, kind: KeyKind::Press, alt: false, ctrl: false };
    let playing = KeyContext { any_playing: true, ..ctx(1_000) };
    assert_eq!(key(&mut s, esc, playing), vec![]);
    assert_eq!(s.quit_asked_at, Some(1_000));
    // Any other key cancels.
    assert_eq!(key(&mut s, press('2'), playing), vec![]);
    assert_eq!(s.quit_asked_at, None);
    assert_eq!(s.selected_deck, 0);
    key(&mut s, esc, playing);
    assert_eq!(key(&mut s, press('y'), playing), vec![UiAction::Quit]);
    // An unanswered question lapses after five seconds.
    key(&mut s, esc, playing);
    ui_step(&mut s, UiEvent::Tick(6_000));
    assert!(s.quit_asked_at.is_some());
    ui_step(&mut s, UiEvent::Tick(6_001));
    assert!(s.quit_asked_at.is_none());
    // Nothing playing: quit at once; Ctrl-C always quits.
    assert_eq!(key(&mut s, esc, ctx(0)), vec![UiAction::Quit]);
    assert_eq!(key(&mut s, KeyInput { ctrl: true, ..press('c') }, playing), vec![UiAction::Quit]);
}

#[test]
fn modals_take_keys_and_help_closes_on_esc() {
    let mut s = state();
    let editor = KeyContext { tag_editor_open: true, ..ctx(0) };
    assert_eq!(key(&mut s, press('2'), editor), vec![UiAction::TagEditorKey(Key::Char('2'))]);
    let browser = KeyContext { browser_open: true, ..ctx(0) };
    assert_eq!(key(&mut s, press('2'), browser), vec![UiAction::BrowserKey(press('2'))]);
    assert_eq!(s.selected_deck, 0);
    key(&mut s, press('?'), ctx(0));
    assert!(s.help_open);
    let esc = KeyInput { key: Key::Esc, kind: KeyKind::Press, alt: false, ctrl: false };
    assert_eq!(key(&mut s, esc, ctx(0)), vec![]);
    assert!(!s.help_open);
    // A pending BPM confirmation takes the next press as its answer.
    let bpm = KeyContext { bpm_pending: true, ..ctx(0) };
    assert_eq!(key(&mut s, press('y'), bpm), vec![UiAction::ConfirmBpm(true)]);
    assert_eq!(key(&mut s, press('2'), bpm), vec![UiAction::ConfirmBpm(false)]);
}

#[test]
fn nudges_and_the_bpm_ramp() {
    let mut s = state();
    assert_eq!(key(&mut s, press('d'), ctx(0)), vec![UiAction::Nudge(true)]);
    assert_eq!(
        key(&mut s, KeyInput { kind: KeyKind::Release, ..press('d') }, ctx(0)),
        vec![UiAction::NudgeRelease]
    );
    assert_eq!(key(&mut s, press('v'), ctx(1_000)), vec![UiAction::BaseBpmStep(true, false)]);
    let mut t = 1_000;
    while t < 4_000 {
        t += 50;
        key(&mut s, KeyInput { kind: KeyKind::Repeat, ..press('v') }, ctx(t));
    }
    assert_eq!(
        key(&mut s, KeyInput { kind: KeyKind::Repeat, ..press('v') }, ctx(t + 50)),
        vec![UiAction::BaseBpmStep(true, true)]
    );
    // After a pause the ramp starts over.
    assert_eq!(key(&mut s, press('v'), ctx(t + 500)), vec![UiAction::BaseBpmStep(true, false)]);
}

#[test]
fn view_settings_stay_in_range() {
    let mut s = state();
    key(&mut s, press(']'), ctx(0));
    assert_eq!(s.latency_ms, 250);
    key(&mut s, press('+'), ctx(0));
    // 50 is not a level: it snaps to the nearest, 45.
    assert_eq!(s.target_fps, 45);
    key(&mut s, press('+'), ctx(0));
    assert_eq!(s.target_fps, 60);
}

#[test]
fn layout_compresses_detail_first() {
    let tall = layout_rows(60, 8);
    assert_eq!(tall.heights, vec![1, 1, 8, 1, 8, 1, 8, 1, 1, 3, 1, 1, 3, 1, 1, 3, 17]);
    assert_eq!(tall.max_detail_height, 14);
    let mid = layout_rows(34, 8);
    assert_eq!(mid.heights, vec![1, 1, 5, 1, 5, 1, 5, 1, 1, 3, 1, 1, 3, 1, 1, 3, 0]);
    let short = layout_rows(24, 8);
    // The last overview no longer fits whole: it falls off.
    assert_eq!(short.heights, vec![1, 1, 3, 1, 3, 1, 3, 1, 1, 2, 1, 1, 2, 1, 1, 0, 0]);
    // Too short for everything: a waveform that does not fit shows not at all.
    let tiny = layout_rows(12, 8);
    assert_eq!(tiny.heights, vec![1, 1, 3, 1, 3, 1, 0, 0, 0, 0, 0, 0, 0, 0, 0, 0, 0]);
}
