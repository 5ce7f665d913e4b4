//! What the player's keys mean, stated against the keys' own names and
//! arithmetic: named keys parse to the key of that name, the vim keys move
//! the browser's cursor like the arrows, a jump of n bars moves four beats a
//! bar, and a deck swap carries the selection with the deck.

use crate::browser::{command_for, BrowserCommand, BrowserKey, BrowserMode};
use crate::config::{bare_key_spec, key_spec, Action, Key, KeyBinding};
use crate::deck::jump_beats_spec;
use crate::ui::{apply_spec, KeyContext, UiAction, UiState};
use vstd::prelude::*;

verus! {

/// The name a key is written by in the config file, for the keys that have
/// one.
pub open spec fn key_name(k: Key) -> Option<Seq<char>> {
    match k {
        Key::Left => Some(seq!['l', 'e', 'f', 't']),
        Key::Right => Some(seq!['r', 'i', 'g', 'h', 't']),
        Key::Up => Some(seq!['u', 'p']),
        Key::Down => Some(seq!['d', 'o', 'w', 'n']),
        Key::Enter => Some(seq!['e', 'n', 't', 'e', 'r']),
        Key::Backspace => Some(seq!['b', 'a', 'c', 'k', 's', 'p', 'a', 'c', 'e']),
        Key::Esc => Some(seq!['e', 's', 'c']),
        Key::Char(c) => if c == ' ' {
            Some(seq!['s', 'p', 'a', 'c', 'e'])
        } else {
            None
        },
    }
}

/// Each key with a name parses from its name, alone and after `space+`; and
/// a name longer than one character parses to a key only when it is that
/// key's name, so no two names give the same key.
pub proof fn lemma_named_keys_parse_to_themselves(k: Key, s: Seq<char>)
    ensures
        key_name(k) matches Some(n) ==> bare_key_spec(n) == Some(k),
        key_name(k) matches Some(n) ==> key_spec(n) == Some(KeyBinding::Key(k)),
        key_name(k) matches Some(n) ==> key_spec(seq!['s', 'p', 'a', 'c', 'e', '+'] + n) == Some(
            KeyBinding::SpaceChord(k),
        ),
        s.len() > 1 && bare_key_spec(s) == Some(k) ==> key_name(k) == Some(s),
{
    if let Some(n) = key_name(k) {
        let p = seq!['s', 'p', 'a', 'c', 'e', '+'] + n;
        assert(p.take(6) =~= seq!['s', 'p', 'a', 'c', 'e', '+']);
        assert(p.skip(6) =~= n);
        assert(n.len() < 6 || n.take(6) != seq!['s', 'p', 'a', 'c', 'e', '+']) by {
            if n.len() >= 6 {
                assert(n.take(6)[0] == n[0]);
            }
        }
    }
}

/// Two keys with names parse apart: distinct keys never share a name.
pub proof fn lemma_key_names_distinct(a: Key, b: Key)
    requires
        key_name(a) is Some,
        key_name(a) == key_name(b),
    ensures
        a == b,
{
    lemma_named_keys_parse_to_themselves(a, Seq::empty());
    lemma_named_keys_parse_to_themselves(b, Seq::empty());
}

/// In the browser's command and move modes, `k` moves the cursor up as the
/// Up arrow does and `j` down as the Down arrow does; in every mode the
/// arrows move the cursor their way.
pub proof fn lemma_vim_keys_move_like_arrows(mode: BrowserMode)
    ensures
        command_for(mode, BrowserKey::Up) == BrowserCommand::NavUp,
        command_for(mode, BrowserKey::Down) == BrowserCommand::NavDown,
        mode != BrowserMode::Search ==> command_for(mode, BrowserKey::Char('k')) == command_for(
            mode,
            BrowserKey::Up,
        ),
        mode != BrowserMode::Search ==> command_for(mode, BrowserKey::Char('j')) == command_for(
            mode,
            BrowserKey::Down,
        ),
        command_for(mode, BrowserKey::Enter) == BrowserCommand::Open,
        command_for(mode, BrowserKey::Esc) == BrowserCommand::Exit,
        mode != BrowserMode::Search ==> command_for(mode, BrowserKey::Char('l')) == command_for(
            mode,
            BrowserKey::Enter,
        ),
        mode != BrowserMode::Search ==> command_for(mode, BrowserKey::Left) == BrowserCommand::GoUp,
        mode != BrowserMode::Search ==> command_for(mode, BrowserKey::Char('h')) == command_for(
            mode,
            BrowserKey::Left,
        ),
        mode != BrowserMode::Search ==> command_for(mode, BrowserKey::Backspace) == command_for(
            mode,
            BrowserKey::Left,
        ),
{
}

/// While searching, every character is typed into the search, so none of
/// the command keys act; Backspace erases and Tab returns to commands.
pub proof fn lemma_search_types_characters(c: char)
    ensures
        command_for(BrowserMode::Search, BrowserKey::Char(c)) == BrowserCommand::Type(c),
        command_for(BrowserMode::Search, BrowserKey::Backspace) == BrowserCommand::Erase,
        command_for(BrowserMode::Search, BrowserKey::Tab) == BrowserCommand::CommandMode,
{
}

/// The bars of a bar jump action, forward or backward, and the beat jumps as
/// a quarter bar.
pub open spec fn jump_bars(a: Action) -> Option<(int, int)> {
    match a {
        Action::JumpForward64b => Some((64, 1)),
        Action::JumpBackward64b => Some((64, -1)),
        Action::JumpForward32b => Some((32, 1)),
        Action::JumpBackward32b => Some((32, -1)),
        Action::JumpForward16b => Some((16, 1)),
        Action::JumpBackward16b => Some((16, -1)),
        Action::JumpForward8b => Some((8, 1)),
        Action::JumpBackward8b => Some((8, -1)),
        Action::JumpForward4b => Some((4, 1)),
        Action::JumpBackward4b => Some((4, -1)),
        Action::JumpForward1b => Some((1, 1)),
        Action::JumpBackward1b => Some((1, -1)),
        _ => None,
    }
}

/// A jump of n bars moves four beats a bar, forward or back; the single-beat
/// jumps move one beat; nothing else jumps.
pub proof fn lemma_jumps_are_four_beats_a_bar(a: Action)
    ensures
        jump_bars(a) matches Some((n, dir)) ==> jump_beats_spec(a) matches Some(b) && b == 4 * n
            * dir,
        a == Action::JumpForward1bt ==> jump_beats_spec(a) == Some(1i32),
        a == Action::JumpBackward1bt ==> jump_beats_spec(a) == Some(-1i32),
        jump_bars(a) is None && a != Action::JumpForward1bt && a != Action::JumpBackward1bt
            ==> jump_beats_spec(a) is None,
{
}

/// Slot `x` after slots `i` and `j` swap places.
pub open spec fn swapped_slot(x: usize, i: usize, j: usize) -> usize {
    if x == i {
        j
    } else if x == j {
        i
    } else {
        x
    }
}

/// Selecting deck n selects slot n - 1, whatever was selected.
pub proof fn lemma_select_picks_the_slot(s: UiState, c: KeyContext)
    ensures
        apply_spec(s, Some(Action::SelectDeck1), c).0.selected_deck == 0,
        apply_spec(s, Some(Action::SelectDeck2), c).0.selected_deck == 1,
        apply_spec(s, Some(Action::SelectDeck3), c).0.selected_deck == 2,
{
}

/// Swapping two decks carries the selection with the deck: the selected slot
/// is mapped through the swap, and the swap is handed on to be performed;
/// nothing else about the input state changes.
pub proof fn lemma_swap_carries_selection(s: UiState, c: KeyContext)
    ensures
        apply_spec(s, Some(Action::SwapDeck1Deck2), c).0 == (UiState {
            selected_deck: swapped_slot(s.selected_deck, 0, 1),
            ..s
        }),
        apply_spec(s, Some(Action::SwapDeck1Deck2), c).1 == seq![
            UiAction::Perform(Action::SwapDeck1Deck2),
        ],
        apply_spec(s, Some(Action::SwapDeck2Deck3), c).0 == (UiState {
            selected_deck: swapped_slot(s.selected_deck, 1, 2),
            ..s
        }),
        apply_spec(s, Some(Action::SwapDeck2Deck3), c).1 == seq![
            UiAction::Perform(Action::SwapDeck2Deck3),
        ],
{
}

} // verus!
