//! The player's input decisions, one key or clock tick at a time: which
//! modal takes a key, the Space-chord layer, nudges and the base-BPM ramp,
//! the confirmations that intercept a press, quit confirmation, and the
//! view settings a key changes. Performing an action on a deck, drawing and
//! persisting are the caller's work: it hands each event here and carries
//! out the actions that come back.

use crate::config::{distance, fps_levels, is_nearest_level, snap_to_fps_level, Action, Key, KeyBinding, Keymap};
use vstd::prelude::*;

verus! {

/// The smallest detail-waveform height the view keeps.
pub const DETAIL_MIN: usize = 3;

/// How many zoom levels the detail view has.
pub const ZOOM_LEVELS: usize = 6;

/// How long a quit waits for confirmation, in milliseconds.
pub const QUIT_CONFIRM_MS: u64 = 5000;

/// A base-BPM key seen again within this many milliseconds continues the
/// ramp at its current step.
pub const RAMP_GAP_MS: u64 = 80;

/// After this many milliseconds of ramping the base BPM moves in large steps.
pub const RAMP_FAST_MS: u64 = 3000;

#[derive(Debug, Clone, Copy, PartialEq, Eq, Structural)]
pub enum KeyKind {
    Press,
    Repeat,
    Release,
}

/// A key event: the key, its kind, and whether Alt or Ctrl was held.
#[derive(Debug, Clone, Copy, PartialEq, Eq, Structural)]
pub struct KeyInput {
    pub key: Key,
    pub kind: KeyKind,
    pub alt: bool,
    pub ctrl: bool,
}

/// What the caller knows when a key arrives: the clock (milliseconds), which
/// modals are open, whether a deck plays, whether a notification, a BPM
/// confirmation or a rename offer is showing, and the tallest detail height
/// the terminal can show.
#[derive(Debug, Clone, Copy, PartialEq, Eq, Structural)]
pub struct KeyContext {
    pub now_ms: u64,
    pub tag_editor_open: bool,
    pub browser_open: bool,
    pub any_playing: bool,
    pub notification: bool,
    pub bpm_pending: bool,
    pub rename_offer: bool,
    pub max_detail_height: usize,
}

#[derive(Debug, Clone, Copy, PartialEq, Eq, Structural)]
pub enum UiEvent {
    Key(KeyInput, KeyContext),
    /// The clock moved on to this many milliseconds.
    Tick(u64),
}

/// What the caller does.
#[derive(Debug, Clone, Copy, PartialEq, Eq, Structural)]
pub enum UiAction {
    /// Store the decks' analysis and the session, and leave.
    Quit,
    /// The open tag editor takes this key.
    TagEditorKey(Key),
    /// The open browser takes this key.
    BrowserKey(KeyInput),
    /// Switch every deck between jump and warp nudging.
    NudgeModeToggle,
    /// Jump the selected deck to its cue.
    CuePlay,
    /// Nudge the selected deck, forward or back.
    Nudge(bool),
    /// Stop a warp nudge.
    NudgeRelease,
    /// Step the selected deck's base BPM up or down, by the large step when
    /// `fast`.
    BaseBpmStep(bool, bool),
    /// Take the notification off screen.
    DismissNotification,
    /// Answer the pending BPM confirmation: accept, or dismiss.
    ConfirmBpm(bool),
    /// Open the tag editor the rename offer proposes.
    AcceptRenameOffer,
    /// Carry out this action, with the settings as they now stand.
    Perform(Action),
}

/// The input state: the keymap, the selected deck, the help overlay, the
/// Space modifier (held, or suppressed until released after a chord),
/// when a quit was asked to be confirmed, vinyl mode, the view settings
/// keys change, and the base-BPM ramp's start and last step.
pub struct UiState {
    pub keymap: Keymap,
    pub selected_deck: usize,
    pub help_open: bool,
    pub space_held: bool,
    pub space_suppressed: bool,
    pub quit_asked_at: Option<u64>,
    pub vinyl: bool,
    pub latency_ms: i64,
    pub art_bright_idx: u8,
    pub zoom_idx: usize,
    pub detail_height: usize,
    pub target_fps: u32,
    pub ramp_started: Option<u64>,
    pub ramp_last: Option<u64>,
}

impl UiState {
    pub open spec fn wf(self) -> bool {
        &&& self.keymap.wf()
        &&& self.selected_deck < 3
        &&& self.art_bright_idx < 3
        &&& self.zoom_idx < ZOOM_LEVELS
        &&& i64::MIN + 10 <= self.latency_ms <= i64::MAX - 10
    }
}

/// The action bound to `b`.
pub open spec fn bound(s: UiState, b: KeyBinding) -> Option<Action> {
    s.keymap.get_spec(b)
}

pub open spec fn is_yes(k: Key) -> bool {
    k == Key::Char('y') || k == Key::Enter
}

/// Space held down arms the chord layer until released; after a chord fires
/// it stays disarmed until the release.
pub open spec fn space_tracked(s: UiState, k: KeyInput) -> UiState {
    if k.key == Key::Char(' ') {
        match k.kind {
            KeyKind::Release => UiState { space_held: false, space_suppressed: false, ..s },
            _ => if s.space_suppressed {
                s
            } else {
                UiState { space_held: true, ..s }
            },
        }
    } else {
        s
    }
}

/// A chord fired: Space, if it was the modifier, is disarmed until released.
pub open spec fn chord_used(s: UiState) -> UiState {
    if s.space_held {
        UiState { space_held: false, space_suppressed: true, ..s }
    } else {
        s
    }
}

/// The nudge keys and cue play, handled for every kind of key event: the
/// state after, the actions, and whether the event is done with.
pub open spec fn early_spec(s: UiState, k: KeyInput) -> (UiState, Seq<UiAction>, bool) {
    let bare = bound(s, KeyBinding::Key(k.key));
    let chord = bound(s, KeyBinding::SpaceChord(k.key));
    let down = k.kind == KeyKind::Press || k.kind == KeyKind::Repeat;
    let plain = !s.space_held && !k.alt;
    if k.kind == KeyKind::Press && bare == Some(Action::NudgeModeToggle) {
        (s, seq![UiAction::NudgeModeToggle], false)
    } else if k.kind == KeyKind::Press && (s.space_held || k.alt) && chord == Some(Action::CuePlay) {
        (chord_used(s), seq![UiAction::CuePlay], true)
    } else if down && plain && bare == Some(Action::NudgeBackward) {
        (s, seq![UiAction::Nudge(false)], false)
    } else if down && plain && bare == Some(Action::NudgeForward) {
        (s, seq![UiAction::Nudge(true)], false)
    } else if k.kind == KeyKind::Release && (bare == Some(Action::NudgeBackward) || bare == Some(
        Action::NudgeForward,
    )) {
        (s, seq![UiAction::NudgeRelease], false)
    } else {
        (s, Seq::empty(), false)
    }
}

/// `b - a`, or nothing when `b` comes first.
pub open spec fn since(a: u64, b: u64) -> int {
    if b >= a {
        b - a
    } else {
        0
    }
}

/// The base-BPM ramp: outside vinyl mode and the chord layer, a base-BPM key
/// pressed or repeating steps the base BPM; the ramp restarts after a gap,
/// and after a while its steps grow.
pub open spec fn ramp_spec(s: UiState, k: KeyInput, now: u64) -> (UiState, Seq<UiAction>) {
    let bare = bound(s, KeyBinding::Key(k.key));
    if !s.vinyl && !s.space_held && !k.alt && (k.kind == KeyKind::Press || k.kind == KeyKind::Repeat)
        && (bare == Some(Action::BaseBpmIncrease) || bare == Some(Action::BaseBpmDecrease)) {
        let restart = match s.ramp_last {
            Some(t) => since(t, now) > RAMP_GAP_MS,
            None => true,
        };
        let started = if restart {
            Some(now)
        } else {
            s.ramp_started
        };
        let fast = match started {
            Some(t) => since(t, now) >= RAMP_FAST_MS,
            None => false,
        };
        (
            UiState { ramp_started: started, ramp_last: Some(now), ..s },
            seq![UiAction::BaseBpmStep(bare == Some(Action::BaseBpmIncrease), fast)],
        )
    } else {
        (s, Seq::empty())
    }
}

/// The frame rate after stepping up (`up`) or down through the levels; a
/// rate off the levels snaps to the nearest.
pub open spec fn fps_step_ok(fps: u32, up: bool, r: u32) -> bool {
    let levels = fps_levels();
    if exists|i: int| 0 <= i < levels.len() && levels[i] == fps {
        let i = choose|i: int| 0 <= i < levels.len() && levels[i] == fps;
        r == if up {
            if i + 1 < levels.len() {
                levels[i + 1]
            } else {
                fps
            }
        } else {
            if i > 0 {
                levels[i - 1]
            } else {
                fps
            }
        }
    } else {
        is_nearest_level(fps, r)
    }
}

/// The frame rate a frame-rate key leads to.
pub open spec fn fps_after(fps: u32, up: bool) -> u32 {
    choose|r: u32| fps_step_ok(fps, up, r)
}

/// Only one rate is the step's.
proof fn lemma_fps_step_unique(fps: u32, up: bool, r: u32)
    requires
        fps_step_ok(fps, up, r),
    ensures
        r == fps_after(fps, up),
{
    let q = fps_after(fps, up);
    assert(fps_step_ok(fps, up, q));
    let levels = fps_levels();
    if !(exists|i: int| 0 <= i < levels.len() && levels[i] == fps) {
        let k1 = choose|k: int|
            0 <= k < fps_levels().len() && fps_levels()[k] == r && (forall|j: int|
                0 <= j < fps_levels().len() ==> distance(#[trigger] fps_levels()[j], fps) >= distance(
                    r,
                    fps,
                )) && (forall|j: int|
                0 <= j < k ==> distance(#[trigger] fps_levels()[j], fps) > distance(r, fps));
        let k2 = choose|k: int|
            0 <= k < fps_levels().len() && fps_levels()[k] == q && (forall|j: int|
                0 <= j < fps_levels().len() ==> distance(#[trigger] fps_levels()[j], fps) >= distance(
                    q,
                    fps,
                )) && (forall|j: int|
                0 <= j < k ==> distance(#[trigger] fps_levels()[j], fps) > distance(q, fps));
        if k1 < k2 {
            assert(distance(fps_levels()[k1], fps) > distance(q, fps));
            assert(distance(fps_levels()[k2], fps) >= distance(r, fps));
        } else if k2 < k1 {
            assert(distance(fps_levels()[k2], fps) > distance(r, fps));
            assert(distance(fps_levels()[k1], fps) >= distance(q, fps));
        }
    }
}

/// The next art brightness: dim, bright, off, dim.
pub open spec fn art_next(i: u8) -> u8 {
    if i == 0 {
        2
    } else if i == 1 {
        0
    } else {
        1
    }
}

/// What a bound action does to the state, and the actions that follow.
pub open spec fn apply_spec(s: UiState, a: Option<Action>, c: KeyContext) -> (UiState, Seq<UiAction>) {
    match a {
        None => (s, Seq::empty()),
        Some(Action::Quit) => if c.any_playing && s.quit_asked_at is None {
            (UiState { quit_asked_at: Some(c.now_ms), ..s }, Seq::empty())
        } else {
            (s, seq![UiAction::Quit])
        },
        Some(Action::Help) => (UiState { help_open: !s.help_open, ..s }, Seq::empty()),
        Some(Action::SelectDeck1) => (UiState { selected_deck: 0, ..s }, Seq::empty()),
        Some(Action::SelectDeck2) => (UiState { selected_deck: 1, ..s }, Seq::empty()),
        Some(Action::SelectDeck3) => (UiState { selected_deck: 2, ..s }, Seq::empty()),
        Some(Action::SwapDeck1Deck2) => (
            UiState {
                selected_deck: if s.selected_deck == 0 {
                    1
                } else if s.selected_deck == 1 {
                    0
                } else {
                    s.selected_deck
                },
                ..s
            },
            seq![UiAction::Perform(Action::SwapDeck1Deck2)],
        ),
        Some(Action::SwapDeck2Deck3) => (
            UiState {
                selected_deck: if s.selected_deck == 1 {
                    2
                } else if s.selected_deck == 2 {
                    1
                } else {
                    s.selected_deck
                },
                ..s
            },
            seq![UiAction::Perform(Action::SwapDeck2Deck3)],
        ),
        Some(Action::VinylModeToggle) => (
            UiState { vinyl: !s.vinyl, ..s },
            seq![UiAction::Perform(Action::VinylModeToggle)],
        ),
        Some(Action::LatencyDecrease) => (
            UiState {
                latency_ms: if s.latency_ms - 10 > 0 {
                    (s.latency_ms - 10) as i64
                } else {
                    0
                },
                ..s
            },
            seq![UiAction::Perform(Action::LatencyDecrease)],
        ),
        Some(Action::LatencyIncrease) => (
            UiState {
                latency_ms: if s.latency_ms + 10 < 250 {
                    (s.latency_ms + 10) as i64
                } else {
                    250
                },
                ..s
            },
            seq![UiAction::Perform(Action::LatencyIncrease)],
        ),
        Some(Action::ArtCycle) => (
            UiState { art_bright_idx: art_next(s.art_bright_idx), ..s },
            seq![UiAction::Perform(Action::ArtCycle)],
        ),
        Some(Action::ZoomOut) => (
            UiState {
                zoom_idx: if s.zoom_idx > 0 {
                    (s.zoom_idx - 1) as usize
                } else {
                    s.zoom_idx
                },
                ..s
            },
            seq![UiAction::Perform(Action::ZoomOut)],
        ),
        Some(Action::ZoomIn) => (
            UiState {
                zoom_idx: if s.zoom_idx + 1 < ZOOM_LEVELS {
                    (s.zoom_idx + 1) as usize
                } else {
                    s.zoom_idx
                },
                ..s
            },
            seq![UiAction::Perform(Action::ZoomIn)],
        ),
        Some(Action::HeightDecrease) => (
            UiState {
                detail_height: if s.detail_height > DETAIL_MIN {
                    (s.detail_height - 1) as usize
                } else {
                    s.detail_height
                },
                ..s
            },
            seq![UiAction::Perform(Action::HeightDecrease)],
        ),
        Some(Action::HeightIncrease) => (
            UiState {
                detail_height: if s.detail_height < c.max_detail_height {
                    (s.detail_height + 1) as usize
                } else {
                    s.detail_height
                },
                ..s
            },
            seq![UiAction::Perform(Action::HeightIncrease)],
        ),
        Some(Action::FpsIncrease) => (
            UiState { target_fps: fps_after(s.target_fps, true), ..s },
            seq![UiAction::Perform(Action::FpsIncrease)],
        ),
        Some(Action::FpsDecrease) => (
            UiState { target_fps: fps_after(s.target_fps, false), ..s },
            seq![UiAction::Perform(Action::FpsDecrease)],
        ),
        Some(Action::NudgeBackward) => (s, Seq::empty()),
        Some(Action::NudgeForward) => (s, Seq::empty()),
        Some(Action::NudgeModeToggle) => (s, Seq::empty()),
        Some(Action::BaseBpmIncrease) => (s, Seq::empty()),
        Some(Action::BaseBpmDecrease) => (s, Seq::empty()),
        Some(other) => (s, seq![UiAction::Perform(other)]),
    }
}

/// The action a press names: with Space or Alt held, its chord binding
/// when it has one (which disarms Space), else its plain binding.
pub open spec fn pressed_spec(s: UiState, k: KeyInput) -> (UiState, Option<Action>) {
    if (s.space_held || k.alt) && k.key != Key::Char(' ') && bound(s, KeyBinding::SpaceChord(k.key))
        is Some {
        (chord_used(s), bound(s, KeyBinding::SpaceChord(k.key)))
    } else {
        (s, bound(s, KeyBinding::Key(k.key)))
    }
}

/// A press after the nudge keys and the ramp: Esc closes the help overlay;
/// a pending quit takes the press as its answer; Esc dismisses a
/// notification; a pending BPM confirmation takes the press as its answer;
/// `y` accepts a rename offer; otherwise the press's action is applied.
pub open spec fn press_spec(s: UiState, k: KeyInput, c: KeyContext) -> (UiState, Seq<UiAction>) {
    if k.kind != KeyKind::Press {
        (s, Seq::empty())
    } else if s.help_open && k.key == Key::Esc {
        (UiState { help_open: false, ..s }, Seq::empty())
    } else if s.quit_asked_at is Some {
        (
            UiState { quit_asked_at: None, ..s },
            if is_yes(k.key) {
                seq![UiAction::Quit]
            } else {
                Seq::empty()
            },
        )
    } else if c.notification && k.key == Key::Esc {
        (s, seq![UiAction::DismissNotification])
    } else if c.bpm_pending {
        (s, seq![UiAction::ConfirmBpm(is_yes(k.key))])
    } else if c.rename_offer && k.key == Key::Char('y') {
        (s, seq![UiAction::AcceptRenameOffer])
    } else {
        let (s1, a) = pressed_spec(s, k);
        apply_spec(s1, a, c)
    }
}

/// The whole step for a key: a non-press Esc is ignored; Ctrl-C quits; an
/// open tag editor, then an open browser, takes the key; otherwise the
/// Space modifier is tracked, the nudge keys, the ramp and the press are
/// handled in turn.
pub open spec fn key_spec(s: UiState, k: KeyInput, c: KeyContext) -> (UiState, Seq<UiAction>) {
    if k.key == Key::Esc && k.kind != KeyKind::Press {
        (s, Seq::empty())
    } else if k.ctrl && k.key == Key::Char('c') {
        (s, seq![UiAction::Quit])
    } else if c.tag_editor_open {
        (
            s,
            if k.kind == KeyKind::Press {
                seq![UiAction::TagEditorKey(k.key)]
            } else {
                Seq::empty()
            },
        )
    } else if c.browser_open {
        (s, seq![UiAction::BrowserKey(k)])
    } else {
        let s1 = space_tracked(s, k);
        let (s2, e, done) = early_spec(s1, k);
        if done {
            (s2, e)
        } else {
            let (s3, r) = ramp_spec(s2, k, c.now_ms);
            let (s4, p) = press_spec(s3, k, c);
            (s4, e + r + p)
        }
    }
}

/// A clock tick expires an unanswered quit confirmation.
pub open spec fn tick_spec(s: UiState, now: u64) -> UiState {
    match s.quit_asked_at {
        Some(t) => if now >= t && now - t > QUIT_CONFIRM_MS {
            UiState { quit_asked_at: None, ..s }
        } else {
            s
        },
        None => s,
    }
}

/// The step for an event.
pub open spec fn ui_step_spec(s: UiState, e: UiEvent) -> (UiState, Seq<UiAction>) {
    match e {
        UiEvent::Key(k, c) => key_spec(s, k, c),
        UiEvent::Tick(now) => (tick_spec(s, now), Seq::empty()),
    }
}

fn since_exec(a: u64, b: u64) -> (r: u64)
    ensures
        r == since(a, b),
{
    if b >= a {
        b - a
    } else {
        0
    }
}

fn fps_step(fps: u32, up: bool) -> (r: u32)
    ensures
        fps_step_ok(fps, up, r),
{
    let levels: [u32; 9] = [15, 20, 24, 30, 45, 60, 90, 120, 240];
    assert(levels@ =~= fps_levels());
    let mut i: usize = 0;
    while i < 9
        invariant
            i <= 9,
            levels@ == fps_levels(),
            forall|j: int| 0 <= j < i ==> levels@[j] != fps,
        decreases 9 - i,
    {
        if levels[i] == fps {
            proof {
                let w = choose|w: int| 0 <= w < fps_levels().len() && fps_levels()[w] == fps;
                assert(w == i as int) by {
                    if w < i {
                        assert(levels@[w] != fps);
                    } else if w > i {
                        assert(fps_levels()[w] > fps_levels()[i as int]);
                    }
                }
            }
            if up {
                return if i + 1 < 9 {
                    levels[i + 1]
                } else {
                    fps
                };
            } else {
                return if i > 0 {
                    levels[i - 1]
                } else {
                    fps
                };
            }
        }
        i = i + 1;
    }
    snap_to_fps_level(fps)
}

fn bound_exec(s: &UiState, b: KeyBinding) -> (r: Option<Action>)
    requires
        s.keymap.wf(),
    ensures
        r == bound(*s, b),
{
    s.keymap.get(b)
}

#[verifier::rlimit(80)]
fn apply(s: UiState, a: Option<Action>, c: KeyContext) -> (r: (UiState, Vec<UiAction>))
    requires
        s.wf(),
    ensures
        r.0.wf(),
        r.0 == apply_spec(s, a, c).0,
        r.1@ == apply_spec(s, a, c).1,
{
    let mut s = s;
    let acts = match a {
        None => Vec::new(),
        Some(Action::Quit) => {
            if c.any_playing && s.quit_asked_at.is_none() {
                s.quit_asked_at = Some(c.now_ms);
                Vec::new()
            } else {
                vec![UiAction::Quit]
            }
        },
        Some(Action::Help) => {
            s.help_open = !s.help_open;
            Vec::new()
        },
        Some(Action::SelectDeck1) => {
            s.selected_deck = 0;
            Vec::new()
        },
        Some(Action::SelectDeck2) => {
            s.selected_deck = 1;
            Vec::new()
        },
        Some(Action::SelectDeck3) => {
            s.selected_deck = 2;
            Vec::new()
        },
        Some(Action::SwapDeck1Deck2) => {
            if s.selected_deck == 0 {
                s.selected_deck = 1;
            } else if s.selected_deck == 1 {
                s.selected_deck = 0;
            }
            vec![UiAction::Perform(Action::SwapDeck1Deck2)]
        },
        Some(Action::SwapDeck2Deck3) => {
            if s.selected_deck == 1 {
                s.selected_deck = 2;
            } else if s.selected_deck == 2 {
                s.selected_deck = 1;
            }
            vec![UiAction::Perform(Action::SwapDeck2Deck3)]
        },
        Some(Action::VinylModeToggle) => {
            s.vinyl = !s.vinyl;
            vec![UiAction::Perform(Action::VinylModeToggle)]
        },
        Some(Action::LatencyDecrease) => {
            s.latency_ms = if s.latency_ms - 10 > 0 {
                s.latency_ms - 10
            } else {
                0
            };
            vec![UiAction::Perform(Action::LatencyDecrease)]
        },
        Some(Action::LatencyIncrease) => {
            s.latency_ms = if s.latency_ms + 10 < 250 {
                s.latency_ms + 10
            } else {
                250
            };
            vec![UiAction::Perform(Action::LatencyIncrease)]
        },
        Some(Action::ArtCycle) => {
            s.art_bright_idx = if s.art_bright_idx == 0 {
                2
            } else if s.art_bright_idx == 1 {
                0
            } else {
                1
            };
            vec![UiAction::Perform(Action::ArtCycle)]
        },
        Some(Action::ZoomOut) => {
            if s.zoom_idx > 0 {
                s.zoom_idx = s.zoom_idx - 1;
            }
            vec![UiAction::Perform(Action::ZoomOut)]
        },
        Some(Action::ZoomIn) => {
            if s.zoom_idx + 1 < ZOOM_LEVELS {
                s.zoom_idx = s.zoom_idx + 1;
            }
            vec![UiAction::Perform(Action::ZoomIn)]
        },
        Some(Action::HeightDecrease) => {
            if s.detail_height > DETAIL_MIN {
                s.detail_height = s.detail_height - 1;
            }
            vec![UiAction::Perform(Action::HeightDecrease)]
        },
        Some(Action::HeightIncrease) => {
            if s.detail_height < c.max_detail_height {
                s.detail_height = s.detail_height + 1;
            }
            vec![UiAction::Perform(Action::HeightIncrease)]
        },
        Some(Action::FpsIncrease) => {
            let f = fps_step(s.target_fps, true);
            proof {
                lemma_fps_step_unique(s.target_fps, true, f);
            }
            s.target_fps = f;
            vec![UiAction::Perform(Action::FpsIncrease)]
        },
        Some(Action::FpsDecrease) => {
            let f = fps_step(s.target_fps, false);
            proof {
                lemma_fps_step_unique(s.target_fps, false, f);
            }
            s.target_fps = f;
            vec![UiAction::Perform(Action::FpsDecrease)]
        },
        Some(Action::NudgeBackward) => Vec::new(),
        Some(Action::NudgeForward) => Vec::new(),
        Some(Action::NudgeModeToggle) => Vec::new(),
        Some(Action::BaseBpmIncrease) => Vec::new(),
        Some(Action::BaseBpmDecrease) => Vec::new(),
        Some(other) => vec![UiAction::Perform(other)],
    };
    (s, acts)
}

fn space_exec(s: UiState, k: KeyInput) -> (r: UiState)
    ensures
        r == space_tracked(s, k),
{
    let mut s = s;
    if k.key == Key::Char(' ') {
        match k.kind {
            KeyKind::Release => {
                s.space_held = false;
                s.space_suppressed = false;
            },
            _ => {
                if !s.space_suppressed {
                    s.space_held = true;
                }
            },
        }
    }
    s
}

fn chord_exec(s: UiState) -> (r: UiState)
    ensures
        r == chord_used(s),
{
    let mut s = s;
    if s.space_held {
        s.space_held = false;
        s.space_suppressed = true;
    }
    s
}

fn early_exec(s: UiState, k: KeyInput) -> (r: (UiState, Vec<UiAction>, bool))
    requires
        s.wf(),
    ensures
        r.0.wf(),
        (r.0, r.1@, r.2) == early_spec(s, k),
{
    let bare = bound_exec(&s, KeyBinding::Key(k.key));
    let chord = bound_exec(&s, KeyBinding::SpaceChord(k.key));
    let down = k.kind == KeyKind::Press || k.kind == KeyKind::Repeat;
    let plain = !s.space_held && !k.alt;
    if k.kind == KeyKind::Press && bare == Some(Action::NudgeModeToggle) {
        (s, vec![UiAction::NudgeModeToggle], false)
    } else if k.kind == KeyKind::Press && (s.space_held || k.alt) && chord == Some(Action::CuePlay) {
        (chord_exec(s), vec![UiAction::CuePlay], true)
    } else if down && plain && bare == Some(Action::NudgeBackward) {
        (s, vec![UiAction::Nudge(false)], false)
    } else if down && plain && bare == Some(Action::NudgeForward) {
        (s, vec![UiAction::Nudge(true)], false)
    } else if k.kind == KeyKind::Release && (bare == Some(Action::NudgeBackward) || bare == Some(
        Action::NudgeForward,
    )) {
        (s, vec![UiAction::NudgeRelease], false)
    } else {
        (s, Vec::new(), false)
    }
}

fn ramp_exec(s: UiState, k: KeyInput, now: u64) -> (r: (UiState, Vec<UiAction>))
    requires
        s.wf(),
    ensures
        r.0.wf(),
        (r.0, r.1@) == ramp_spec(s, k, now),
{
    let bare = bound_exec(&s, KeyBinding::Key(k.key));
    if !s.vinyl && !s.space_held && !k.alt && (k.kind == KeyKind::Press || k.kind == KeyKind::Repeat)
        && (bare == Some(Action::BaseBpmIncrease) || bare == Some(Action::BaseBpmDecrease)) {
        let restart = match s.ramp_last {
            Some(t) => since_exec(t, now) > RAMP_GAP_MS,
            None => true,
        };
        let started = if restart {
            Some(now)
        } else {
            s.ramp_started
        };
        let fast = match started {
            Some(t) => since_exec(t, now) >= RAMP_FAST_MS,
            None => false,
        };
        let mut s = s;
        s.ramp_started = started;
        s.ramp_last = Some(now);
        (s, vec![UiAction::BaseBpmStep(bare == Some(Action::BaseBpmIncrease), fast)])
    } else {
        (s, Vec::new())
    }
}

fn press_exec(s: UiState, k: KeyInput, c: KeyContext) -> (r: (UiState, Vec<UiAction>))
    requires
        s.wf(),
    ensures
        r.0.wf(),
        (r.0, r.1@) == press_spec(s, k, c),
{
    let mut s = s;
    if k.kind != KeyKind::Press {
        (s, Vec::new())
    } else if s.help_open && k.key == Key::Esc {
        s.help_open = false;
        (s, Vec::new())
    } else if s.quit_asked_at.is_some() {
        s.quit_asked_at = None;
        let yes = k.key == Key::Char('y') || k.key == Key::Enter;
        (s, if yes {
            vec![UiAction::Quit]
        } else {
            Vec::new()
        })
    } else if c.notification && k.key == Key::Esc {
        (s, vec![UiAction::DismissNotification])
    } else if c.bpm_pending {
        let yes = k.key == Key::Char('y') || k.key == Key::Enter;
        (s, vec![UiAction::ConfirmBpm(yes)])
    } else if c.rename_offer && k.key == Key::Char('y') {
        (s, vec![UiAction::AcceptRenameOffer])
    } else {
        let chord = bound_exec(&s, KeyBinding::SpaceChord(k.key));
        let (s1, a) = if (s.space_held || k.alt) && k.key != Key::Char(' ') && chord.is_some() {
            (chord_exec(s), chord)
        } else {
            let bare = bound_exec(&s, KeyBinding::Key(k.key));
            (s, bare)
        };
        if a.is_none() {
            (s1, Vec::new())
        } else {
            apply(s1, a, c)
        }
    }
}

fn key_exec(s: UiState, k: KeyInput, c: KeyContext) -> (r: (UiState, Vec<UiAction>))
    requires
        s.wf(),
    ensures
        r.0.wf(),
        (r.0, r.1@) == key_spec(s, k, c),
{
    if k.key == Key::Esc && k.kind != KeyKind::Press {
        (s, Vec::new())
    } else if k.ctrl && k.key == Key::Char('c') {
        (s, vec![UiAction::Quit])
    } else if c.tag_editor_open {
        (s, if k.kind == KeyKind::Press {
            vec![UiAction::TagEditorKey(k.key)]
        } else {
            Vec::new()
        })
    } else if c.browser_open {
        (s, vec![UiAction::BrowserKey(k)])
    } else {
        let s1 = space_exec(s, k);
        let (s2, mut e, done) = early_exec(s1, k);
        if done {
            (s2, e)
        } else {
            let (s3, mut r) = ramp_exec(s2, k, c.now_ms);
            let (s4, mut p) = press_exec(s3, k, c);
            let ghost e0 = e@;
            let ghost r0 = r@;
            let ghost p0 = p@;
            e.append(&mut r);
            e.append(&mut p);
            assert(e@ =~= e0 + r0 + p0);
            (s4, e)
        }
    }
}

/// A blank state to stand in while a step runs.
fn blank() -> (r: UiState)
    ensures
        r.wf(),
{
    UiState {
        keymap: Keymap::new(),
        selected_deck: 0,
        help_open: false,
        space_held: false,
        space_suppressed: false,
        quit_asked_at: None,
        vinyl: false,
        latency_ms: 0,
        art_bright_idx: 0,
        zoom_idx: 0,
        detail_height: DETAIL_MIN,
        target_fps: 60,
        ramp_started: None,
        ramp_last: None,
    }
}

/// One event: the state moves on and the actions come back in order.
pub fn ui_step(state: &mut UiState, event: UiEvent) -> (a: Vec<UiAction>)
    requires
        old(state).wf(),
    ensures
        final(state).wf(),
        (*final(state), a@) == ui_step_spec(*old(state), event),
{
    let mut s = blank();
    std::mem::swap(&mut s, state);
    let (n, acts) = match event {
        UiEvent::Key(k, c) => key_exec(s, k, c),
        UiEvent::Tick(now) => {
            let mut s = s;
            match s.quit_asked_at {
                Some(t) => {
                    if now >= t && now - t > QUIT_CONFIRM_MS {
                        s.quit_asked_at = None;
                    }
                },
                None => {},
            }
            (s, Vec::new())
        },
    };
    *state = n;
    acts
}

/// The rows of the player's screen, top to bottom: the global bar, the
/// detail info bar, the three detail waveforms with a shared tick row between
/// each pair, then for each deck a notification row, an info row and its
/// overview, and the spacer that takes what is left; and the tallest detail
/// height the rows allow.
pub struct RowLayout {
    pub heights: Vec<u16>,
    pub max_detail_height: usize,
}

/// Rows that do not stretch: global bar, detail info, two tick rows, and a
/// notification and an info row per deck.
pub open spec fn fixed_rows() -> int {
    10
}

pub open spec fn sat_sub(a: int, b: int) -> int {
    if a >= b {
        a - b
    } else {
        0
    }
}

/// The detail and overview heights for `rows` rows with detail height
/// `det_max`: detail compresses first, down to its minimum, then the
/// overviews, down to two rows; below that the heights stay at their
/// minimums and rows fall off the bottom.
pub open spec fn wave_heights(rows: int, det_max: int) -> (int, int) {
    let tv = sat_sub(rows, fixed_rows());
    let det_full = det_max * 3;
    let (all_det, all_ov) = if tv >= det_full + 9 {
        (det_full, 9)
    } else if tv >= DETAIL_MIN * 3 + 9 {
        (tv - 9, 9)
    } else if tv >= DETAIL_MIN * 3 + 6 {
        (DETAIL_MIN * 3, tv - DETAIL_MIN * 3)
    } else {
        let d = if tv < DETAIL_MIN * 3 {
            tv
        } else {
            DETAIL_MIN * 3
        };
        (d, tv - d)
    };
    let det = if all_det / 3 > DETAIL_MIN {
        all_det / 3
    } else {
        DETAIL_MIN as int
    };
    let det = if det < det_max {
        det
    } else {
        det_max
    };
    let ov = if all_ov / 3 < 2 {
        2
    } else if all_ov / 3 > 3 {
        3
    } else {
        all_ov / 3
    };
    (det, ov)
}

/// The rows asked for, top to bottom: how many, and whether an item shows
/// whole or not at all.
pub open spec fn row_requests(det: int, ov: int) -> Seq<(int, bool)> {
    seq![
        (1, false),
        (1, false),
        (det, true),
        (1, false),
        (det, true),
        (1, false),
        (det, true),
        (1, false),
        (1, false),
        (ov, true),
        (1, false),
        (1, false),
        (ov, true),
        (1, false),
        (1, false),
        (ov, true),
    ]
}

/// Allocating `reqs` in order from `rows`: a partial item takes what is
/// left up to its size; a whole-or-nothing item shows only when it fits,
/// but uses up its rows either way. The heights, and the rows left.
pub open spec fn allocate(rows: int, reqs: Seq<(int, bool)>) -> (Seq<int>, int)
    decreases reqs.len(),
{
    if reqs.len() == 0 {
        (Seq::empty(), rows)
    } else {
        let (hs, rem) = allocate(rows, reqs.drop_last());
        let (n, whole) = reqs.last();
        if whole {
            (hs.push(if rem >= n {
                n
            } else {
                0
            }), sat_sub(rem, n))
        } else {
            let h = if rem < n {
                rem
            } else {
                n
            };
            (hs.push(h), rem - h)
        }
    }
}

/// The screen's row heights: the items' heights, then the spacer.
pub open spec fn layout_spec(rows: int, detail_height: int) -> Seq<int> {
    let (det, ov) = wave_heights(rows, detail_height);
    let (hs, rem) = allocate(rows, row_requests(det, ov));
    hs.push(rem)
}

proof fn lemma_allocate_bounds(rows: int, reqs: Seq<(int, bool)>)
    requires
        rows >= 0,
        forall|i: int| 0 <= i < reqs.len() ==> (#[trigger] reqs[i]).0 >= 0,
    ensures
        0 <= allocate(rows, reqs).1 <= rows,
        forall|i: int|
            0 <= i < allocate(rows, reqs).0.len() ==> 0 <= #[trigger] allocate(rows, reqs).0[i] <= rows,
        allocate(rows, reqs).0.len() == reqs.len(),
    decreases reqs.len(),
{
    if reqs.len() > 0 {
        let d = reqs.drop_last();
        assert forall|i: int| 0 <= i < d.len() implies (#[trigger] d[i]).0 >= 0 by {
            assert(d[i] == reqs[i]);
        }
        lemma_allocate_bounds(rows, d);
        assert(reqs.last() == reqs[reqs.len() - 1]);
    }
}

/// The layout for a terminal `rows` tall with detail height
/// `detail_height`.
pub fn layout_rows(rows: u16, detail_height: usize) -> (r: RowLayout)
    requires
        detail_height * 3 <= u16::MAX,
    ensures
        r.heights@.len() == 17,
        forall|i: int|
            0 <= i < 17 ==> #[trigger] r.heights@[i] as int == layout_spec(
                rows as int,
                detail_height as int,
            )[i],
        r.max_detail_height == sat_sub(rows as int, fixed_rows() + 6) / 3,
{
    let det_max: u16 = detail_height as u16;
    let ih = rows;
    let max_det = (if ih >= 16 {
        ih - 16
    } else {
        0
    }) / 3;
    let tv: u16 = if ih >= 10 {
        ih - 10
    } else {
        0
    };
    let det_full = det_max * 3;
    let (all_det, all_ov): (u16, u16) = if tv as u32 >= det_full as u32 + 9 {
        (det_full, 9)
    } else if tv >= 18 {
        (tv - 9, 9)
    } else if tv >= 15 {
        (9, tv - 9)
    } else {
        let d = if tv < 9 {
            tv
        } else {
            9
        };
        (d, tv - d)
    };
    let det0 = if all_det / 3 > 3 {
        all_det / 3
    } else {
        3
    };
    let det = if det0 < det_max {
        det0
    } else {
        det_max
    };
    let ov = if all_ov / 3 < 2 {
        2
    } else if all_ov / 3 > 3 {
        3
    } else {
        all_ov / 3
    };
    assert((det as int, ov as int) == wave_heights(rows as int, detail_height as int));
    let reqs: [(u16, bool); 16] = [
        (1, false),
        (1, false),
        (det, true),
        (1, false),
        (det, true),
        (1, false),
        (det, true),
        (1, false),
        (1, false),
        (ov, true),
        (1, false),
        (1, false),
        (ov, true),
        (1, false),
        (1, false),
        (ov, true),
    ];
    let ghost spec_reqs = row_requests(det as int, ov as int);
    assert(reqs@.len() == 16);
    assert forall|i: int| 0 <= i < 16 implies (#[trigger] reqs@[i]).0 as int == spec_reqs[i].0
        && reqs@[i].1 == spec_reqs[i].1 by {}
    let mut heights: Vec<u16> = Vec::new();
    let mut rem: u16 = ih;
    let mut k: usize = 0;
    while k < 16
        invariant
            k <= 16,
            reqs@.len() == 16,
            spec_reqs == row_requests(det as int, ov as int),
            forall|i: int| 0 <= i < 16 ==> (#[trigger] reqs@[i]).0 as int == spec_reqs[i].0
                && reqs@[i].1 == spec_reqs[i].1,
            heights@.len() == k,
            rem as int == allocate(ih as int, spec_reqs.take(k as int)).1,
            forall|i: int|
                0 <= i < k ==> #[trigger] heights@[i] as int == allocate(
                    ih as int,
                    spec_reqs.take(k as int),
                ).0[i],
        decreases 16 - k,
    {
        let (n, whole) = reqs[k];
        let ghost before = allocate(ih as int, spec_reqs.take(k as int));
        proof {
            let t = spec_reqs.take(k as int);
            assert forall|i: int| 0 <= i < t.len() implies (#[trigger] t[i]).0 >= 0 by {
                assert(t[i] == spec_reqs[i]);
            }
            lemma_allocate_bounds(ih as int, t);
            assert(spec_reqs.take(k + 1).drop_last() =~= spec_reqs.take(k as int));
            assert(spec_reqs.take(k + 1).last() == spec_reqs[k as int]);
        }
        let h = if whole {
            let h = if rem >= n {
                n
            } else {
                0
            };
            rem = if rem >= n {
                rem - n
            } else {
                0
            };
            h
        } else {
            let h = if rem < n {
                rem
            } else {
                n
            };
            rem = rem - h;
            h
        };
        heights.push(h);
        proof {
            let after = allocate(ih as int, spec_reqs.take(k + 1));
            assert(after.0 == before.0.push(h as int));
            assert forall|i: int| 0 <= i < k + 1 implies #[trigger] heights@[i] as int == after.0[i] by {
                if i < k {
                    assert(heights@[i] as int == before.0[i]);
                }
            }
        }
        k = k + 1;
    }
    proof {
        assert(spec_reqs.take(16) =~= spec_reqs);
        assert forall|i: int| 0 <= i < spec_reqs.len() implies (#[trigger] spec_reqs[i]).0 >= 0 by {}
        lemma_allocate_bounds(ih as int, spec_reqs);
    }
    let ghost hs0 = heights@;
    heights.push(rem);
    proof {
        let full = allocate(ih as int, spec_reqs);
        assert(layout_spec(rows as int, detail_height as int) == full.0.push(full.1));
        assert forall|i: int| 0 <= i < 17 implies #[trigger] heights@[i] as int == layout_spec(
            rows as int,
            detail_height as int,
        )[i] by {
            if i < 16 {
                assert(heights@[i] == hs0[i]);
            }
        }
    }
    RowLayout { heights, max_detail_height: max_det as usize }
}

pub open spec fn total(s: Seq<int>) -> int
    decreases s.len(),
{
    if s.len() == 0 {
        0
    } else {
        total(s.drop_last()) + s.last()
    }
}

proof fn lemma_allocate_total(rows: int, reqs: Seq<(int, bool)>)
    requires
        rows >= 0,
        forall|i: int| 0 <= i < reqs.len() ==> (#[trigger] reqs[i]).0 >= 0,
    ensures
        total(allocate(rows, reqs).0) + allocate(rows, reqs).1 <= rows,
        forall|i: int|
            0 <= i < reqs.len() && (#[trigger] reqs[i]).1 ==> allocate(rows, reqs).0[i] == 0
                || allocate(rows, reqs).0[i] == reqs[i].0,
    decreases reqs.len(),
{
    if reqs.len() > 0 {
        let d = reqs.drop_last();
        assert forall|i: int| 0 <= i < d.len() implies (#[trigger] d[i]).0 >= 0 by {
            assert(d[i] == reqs[i]);
        }
        lemma_allocate_total(rows, d);
        lemma_allocate_bounds(rows, d);
        let (hs, rem) = allocate(rows, d);
        let out = allocate(rows, reqs).0;
        assert(out.drop_last() =~= hs);
        assert(total(out) == total(hs) + out.last());
        assert forall|i: int|
            0 <= i < reqs.len() && (#[trigger] reqs[i]).1 implies out[i] == 0 || out[i] == reqs[i].0 by {
            if i < d.len() {
                assert(d[i] == reqs[i]);
                assert(out[i] == hs[i]);
            }
        }
    }
}

/// The layout never runs past the screen: its heights add up to at most
/// the rows; and each waveform shows at its full height or not at all.
pub proof fn lemma_layout_within_screen(rows: u16, detail_height: usize)
    ensures
        total(layout_spec(rows as int, detail_height as int)) <= rows,
        forall|i: int|
            i == 2 || i == 4 || i == 6 ==> #[trigger] layout_spec(rows as int, detail_height as int)[i]
                == 0 || layout_spec(rows as int, detail_height as int)[i] == wave_heights(
                rows as int,
                detail_height as int,
            ).0,
        forall|i: int|
            i == 9 || i == 12 || i == 15 ==> #[trigger] layout_spec(rows as int, detail_height as int)[i]
                == 0 || layout_spec(rows as int, detail_height as int)[i] == wave_heights(
                rows as int,
                detail_height as int,
            ).1,
{
    let (det, ov) = wave_heights(rows as int, detail_height as int);
    let reqs = row_requests(det, ov);
    assert forall|i: int| 0 <= i < reqs.len() implies (#[trigger] reqs[i]).0 >= 0 by {}
    lemma_allocate_total(rows as int, reqs);
    lemma_allocate_bounds(rows as int, reqs);
    let (hs, rem) = allocate(rows as int, reqs);
    let l = layout_spec(rows as int, detail_height as int);
    assert(l.drop_last() =~= hs);
    assert(total(l) == total(hs) + rem);
    assert(reqs[2].1 && reqs[4].1 && reqs[6].1 && reqs[9].1 && reqs[12].1 && reqs[15].1);
}

} // verus!
