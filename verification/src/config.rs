//! The player's configuration: the named actions keys can be bound to, how
//! a key is written in the config file, the display settings, and the
//! keymap built from the file's `[keys]` table.

use crate::text::{chars_eq, chars_of, string_of};
use vstd::prelude::*;

verus! {

/// Everything a key can be bound to.
#[derive(Debug, Clone, Copy, PartialEq, Eq, Structural)]
pub enum Action {
    Quit,
    Help,
    VinylModeToggle,
    ZoomIn,
    ZoomOut,
    HeightIncrease,
    HeightDecrease,
    LatencyIncrease,
    LatencyDecrease,
    FpsIncrease,
    FpsDecrease,
    PaletteCycle,
    NudgeModeToggle,
    ArtCycle,
    SelectDeck1,
    SelectDeck2,
    SelectDeck3,
    PlayPause,
    OpenBrowser,
    PitchUp,
    PitchDown,
    PitchReset,
    BpmTap,
    MetronomeToggle,
    DetectBpm,
    LoopTap,
    LoopExit,
    BpmIncrease,
    BpmDecrease,
    BaseBpmIncrease,
    BaseBpmDecrease,
    SpeedReset,
    NudgeForward,
    NudgeBackward,
    OffsetIncrease,
    OffsetDecrease,
    JumpForward1bt,
    JumpBackward1bt,
    JumpForward1b,
    JumpBackward1b,
    JumpForward4b,
    JumpBackward4b,
    JumpForward8b,
    JumpBackward8b,
    JumpForward16b,
    JumpBackward16b,
    JumpForward32b,
    JumpBackward32b,
    JumpForward64b,
    JumpBackward64b,
    Cue,
    CuePlay,
    PflLevelUp,
    PflLevelDown,
    PflLevelReset,
    PflOnOff,
    Deck1LevelUp,
    Deck1LevelDown,
    Deck1LevelMax,
    Deck1LevelMin,
    Deck1FilterIncrease,
    Deck1FilterDecrease,
    Deck1FilterReset,
    Deck1FilterSlopeIncrease,
    Deck1FilterSlopeDecrease,
    Deck1GainIncrease,
    Deck1GainDecrease,
    Deck2LevelUp,
    Deck2LevelDown,
    Deck2LevelMax,
    Deck2LevelMin,
    Deck2FilterIncrease,
    Deck2FilterDecrease,
    Deck2FilterReset,
    Deck2FilterSlopeIncrease,
    Deck2FilterSlopeDecrease,
    Deck2GainIncrease,
    Deck2GainDecrease,
    Deck3LevelUp,
    Deck3LevelDown,
    Deck3LevelMax,
    Deck3LevelMin,
    Deck3FilterIncrease,
    Deck3FilterDecrease,
    Deck3FilterReset,
    Deck3FilterSlopeIncrease,
    Deck3FilterSlopeDecrease,
    Deck3GainIncrease,
    Deck3GainDecrease,
    SwapDeck1Deck2,
    SwapDeck2Deck3,
}

/// The action a config file names, by its name in the `[keys]` table.
pub open spec fn action_for_name(name: Seq<char>) -> Option<Action> {
    if name == seq!['q', 'u', 'i', 't'] {
        Some(Action::Quit)
    } else if name == seq!['h', 'e', 'l', 'p'] {
        Some(Action::Help)
    } else if name == seq!['v', 'i', 'n', 'y', 'l', '_', 'm', 'o', 'd', 'e', '_', 't', 'o', 'g', 'g', 'l', 'e'] {
        Some(Action::VinylModeToggle)
    } else if name == seq!['z', 'o', 'o', 'm', '_', 'i', 'n'] {
        Some(Action::ZoomIn)
    } else if name == seq!['z', 'o', 'o', 'm', '_', 'o', 'u', 't'] {
        Some(Action::ZoomOut)
    } else if name == seq!['h', 'e', 'i', 'g', 'h', 't', '_', 'i', 'n', 'c', 'r', 'e', 'a', 's', 'e'] {
        Some(Action::HeightIncrease)
    } else if name == seq!['h', 'e', 'i', 'g', 'h', 't', '_', 'd', 'e', 'c', 'r', 'e', 'a', 's', 'e'] {
        Some(Action::HeightDecrease)
    } else if name == seq!['l', 'a', 't', 'e', 'n', 'c', 'y', '_', 'i', 'n', 'c', 'r', 'e', 'a', 's', 'e'] {
        Some(Action::LatencyIncrease)
    } else if name == seq!['l', 'a', 't', 'e', 'n', 'c', 'y', '_', 'd', 'e', 'c', 'r', 'e', 'a', 's', 'e'] {
        Some(Action::LatencyDecrease)
    } else if name == seq!['f', 'p', 's', '_', 'i', 'n', 'c', 'r', 'e', 'a', 's', 'e'] {
        Some(Action::FpsIncrease)
    } else if name == seq!['f', 'p', 's', '_', 'd', 'e', 'c', 'r', 'e', 'a', 's', 'e'] {
        Some(Action::FpsDecrease)
    } else if name == seq!['p', 'a', 'l', 'e', 't', 't', 'e', '_', 'c', 'y', 'c', 'l', 'e'] {
        Some(Action::PaletteCycle)
    } else if name == seq!['n', 'u', 'd', 'g', 'e', '_', 'm', 'o', 'd', 'e', '_', 't', 'o', 'g', 'g', 'l', 'e'] {
        Some(Action::NudgeModeToggle)
    } else if name == seq!['a', 'r', 't', '_', 'c', 'y', 'c', 'l', 'e'] {
        Some(Action::ArtCycle)
    } else if name == seq!['s', 'e', 'l', 'e', 'c', 't', '_', 'd', 'e', 'c', 'k', '1'] {
        Some(Action::SelectDeck1)
    } else if name == seq!['s', 'e', 'l', 'e', 'c', 't', '_', 'd', 'e', 'c', 'k', '2'] {
        Some(Action::SelectDeck2)
    } else if name == seq!['s', 'e', 'l', 'e', 'c', 't', '_', 'd', 'e', 'c', 'k', '3'] {
        Some(Action::SelectDeck3)
    } else if name == seq!['p', 'l', 'a', 'y', '_', 'p', 'a', 'u', 's', 'e'] {
        Some(Action::PlayPause)
    } else if name == seq!['o', 'p', 'e', 'n', '_', 'b', 'r', 'o', 'w', 's', 'e', 'r'] {
        Some(Action::OpenBrowser)
    } else if name == seq!['p', 'i', 't', 'c', 'h', '_', 'u', 'p'] {
        Some(Action::PitchUp)
    } else if name == seq!['p', 'i', 't', 'c', 'h', '_', 'd', 'o', 'w', 'n'] {
        Some(Action::PitchDown)
    } else if name == seq!['p', 'i', 't', 'c', 'h', '_', 'r', 'e', 's', 'e', 't'] {
        Some(Action::PitchReset)
    } else if name == seq!['b', 'p', 'm', '_', 't', 'a', 'p'] {
        Some(Action::BpmTap)
    } else if name == seq!['m', 'e', 't', 'r', 'o', 'n', 'o', 'm', 'e', '_', 't', 'o', 'g', 'g', 'l', 'e'] {
        Some(Action::MetronomeToggle)
    } else if name == seq!['d', 'e', 't', 'e', 'c', 't', '_', 'b', 'p', 'm'] {
        Some(Action::DetectBpm)
    } else if name == seq!['l', 'o', 'o', 'p', '_', 't', 'a', 'p'] {
        Some(Action::LoopTap)
    } else if name == seq!['l', 'o', 'o', 'p', '_', 'e', 'x', 'i', 't'] {
        Some(Action::LoopExit)
    } else if name == seq!['b', 'p', 'm', '_', 'i', 'n', 'c', 'r', 'e', 'a', 's', 'e'] {
        Some(Action::BpmIncrease)
    } else if name == seq!['b', 'p', 'm', '_', 'd', 'e', 'c', 'r', 'e', 'a', 's', 'e'] {
        Some(Action::BpmDecrease)
    } else if name == seq!['b', 'a', 's', 'e', '_', 'b', 'p', 'm', '_', 'i', 'n', 'c', 'r', 'e', 'a', 's', 'e'] {
        Some(Action::BaseBpmIncrease)
    } else if name == seq!['b', 'a', 's', 'e', '_', 'b', 'p', 'm', '_', 'd', 'e', 'c', 'r', 'e', 'a', 's', 'e'] {
        Some(Action::BaseBpmDecrease)
    } else if name == seq!['s', 'p', 'e', 'e', 'd', '_', 'r', 'e', 's', 'e', 't'] {
        Some(Action::SpeedReset)
    } else if name == seq!['n', 'u', 'd', 'g', 'e', '_', 'f', 'o', 'r', 'w', 'a', 'r', 'd'] {
        Some(Action::NudgeForward)
    } else if name == seq!['n', 'u', 'd', 'g', 'e', '_', 'b', 'a', 'c', 'k', 'w', 'a', 'r', 'd'] {
        Some(Action::NudgeBackward)
    } else if name == seq!['o', 'f', 'f', 's', 'e', 't', '_', 'i', 'n', 'c', 'r', 'e', 'a', 's', 'e'] {
        Some(Action::OffsetIncrease)
    } else if name == seq!['o', 'f', 'f', 's', 'e', 't', '_', 'd', 'e', 'c', 'r', 'e', 'a', 's', 'e'] {
        Some(Action::OffsetDecrease)
    } else if name == seq!['j', 'u', 'm', 'p', '_', 'f', 'o', 'r', 'w', 'a', 'r', 'd', '_', '1', 'b', 't'] {
        Some(Action::JumpForward1bt)
    } else if name == seq!['j', 'u', 'm', 'p', '_', 'b', 'a', 'c', 'k', 'w', 'a', 'r', 'd', '_', '1', 'b', 't'] {
        Some(Action::JumpBackward1bt)
    } else if name == seq!['j', 'u', 'm', 'p', '_', 'f', 'o', 'r', 'w', 'a', 'r', 'd', '_', '1', 'b'] {
        Some(Action::JumpForward1b)
    } else if name == seq!['j', 'u', 'm', 'p', '_', 'b', 'a', 'c', 'k', 'w', 'a', 'r', 'd', '_', '1', 'b'] {
        Some(Action::JumpBackward1b)
    } else if name == seq!['j', 'u', 'm', 'p', '_', 'f', 'o', 'r', 'w', 'a', 'r', 'd', '_', '4', 'b'] {
        Some(Action::JumpForward4b)
    } else if name == seq!['j', 'u', 'm', 'p', '_', 'b', 'a', 'c', 'k', 'w', 'a', 'r', 'd', '_', '4', 'b'] {
        Some(Action::JumpBackward4b)
    } else if name == seq!['j', 'u', 'm', 'p', '_', 'f', 'o', 'r', 'w', 'a', 'r', 'd', '_', '8', 'b'] {
        Some(Action::JumpForward8b)
    } else if name == seq!['j', 'u', 'm', 'p', '_', 'b', 'a', 'c', 'k', 'w', 'a', 'r', 'd', '_', '8', 'b'] {
        Some(Action::JumpBackward8b)
    } else if name == seq!['j', 'u', 'm', 'p', '_', 'f', 'o', 'r', 'w', 'a', 'r', 'd', '_', '1', '6', 'b'] {
        Some(Action::JumpForward16b)
    } else if name == seq!['j', 'u', 'm', 'p', '_', 'b', 'a', 'c', 'k', 'w', 'a', 'r', 'd', '_', '1', '6', 'b'] {
        Some(Action::JumpBackward16b)
    } else if name == seq!['j', 'u', 'm', 'p', '_', 'f', 'o', 'r', 'w', 'a', 'r', 'd', '_', '3', '2', 'b'] {
        Some(Action::JumpForward32b)
    } else if name == seq!['j', 'u', 'm', 'p', '_', 'b', 'a', 'c', 'k', 'w', 'a', 'r', 'd', '_', '3', '2', 'b'] {
        Some(Action::JumpBackward32b)
    } else if name == seq!['j', 'u', 'm', 'p', '_', 'f', 'o', 'r', 'w', 'a', 'r', 'd', '_', '6', '4', 'b'] {
        Some(Action::JumpForward64b)
    } else if name == seq!['j', 'u', 'm', 'p', '_', 'b', 'a', 'c', 'k', 'w', 'a', 'r', 'd', '_', '6', '4', 'b'] {
        Some(Action::JumpBackward64b)
    } else if name == seq!['c', 'u', 'e'] {
        Some(Action::Cue)
    } else if name == seq!['c', 'u', 'e', '_', 'p', 'l', 'a', 'y'] {
        Some(Action::CuePlay)
    } else if name == seq!['p', 'f', 'l', '_', 'u', 'p'] {
        Some(Action::PflLevelUp)
    } else if name == seq!['p', 'f', 'l', '_', 'd', 'o', 'w', 'n'] {
        Some(Action::PflLevelDown)
    } else if name == seq!['p', 'f', 'l', '_', 'r', 'e', 's', 'e', 't'] {
        Some(Action::PflLevelReset)
    } else if name == seq!['p', 'f', 'l', '_', 'o', 'n', '_', 'o', 'f', 'f'] {
        Some(Action::PflOnOff)
    } else if name == seq!['d', 'e', 'c', 'k', '1', '_', 'l', 'e', 'v', 'e', 'l', '_', 'u', 'p'] {
        Some(Action::Deck1LevelUp)
    } else if name == seq!['d', 'e', 'c', 'k', '1', '_', 'l', 'e', 'v', 'e', 'l', '_', 'd', 'o', 'w', 'n'] {
        Some(Action::Deck1LevelDown)
    } else if name == seq!['d', 'e', 'c', 'k', '1', '_', 'l', 'e', 'v', 'e', 'l', '_', 'm', 'a', 'x'] {
        Some(Action::Deck1LevelMax)
    } else if name == seq!['d', 'e', 'c', 'k', '1', '_', 'l', 'e', 'v', 'e', 'l', '_', 'm', 'i', 'n'] {
        Some(Action::Deck1LevelMin)
    } else if name == seq!['d', 'e', 'c', 'k', '1', '_', 'f', 'i', 'l', 't', 'e', 'r', '_', 'i', 'n', 'c', 'r', 'e', 'a', 's', 'e'] {
        Some(Action::Deck1FilterIncrease)
    } else if name == seq!['d', 'e', 'c', 'k', '1', '_', 'f', 'i', 'l', 't', 'e', 'r', '_', 'd', 'e', 'c', 'r', 'e', 'a', 's', 'e'] {
        Some(Action::Deck1FilterDecrease)
    } else if name == seq!['d', 'e', 'c', 'k', '1', '_', 'f', 'i', 'l', 't', 'e', 'r', '_', 'r', 'e', 's', 'e', 't'] {
        Some(Action::Deck1FilterReset)
    } else if name == seq!['d', 'e', 'c', 'k', '1', '_', 'f', 'i', 'l', 't', 'e', 'r', '_', 's', 'l', 'o', 'p', 'e', '_', 'i', 'n', 'c', 'r', 'e', 'a', 's', 'e'] {
        Some(Action::Deck1FilterSlopeIncrease)
    } else if name == seq!['d', 'e', 'c', 'k', '1', '_', 'f', 'i', 'l', 't', 'e', 'r', '_', 's', 'l', 'o', 'p', 'e', '_', 'd', 'e', 'c', 'r', 'e', 'a', 's', 'e'] {
        Some(Action::Deck1FilterSlopeDecrease)
    } else if name == seq!['d', 'e', 'c', 'k', '1', '_', 'g', 'a', 'i', 'n', '_', 'i', 'n', 'c', 'r', 'e', 'a', 's', 'e'] {
        Some(Action::Deck1GainIncrease)
    } else if name == seq!['d', 'e', 'c', 'k', '1', '_', 'g', 'a', 'i', 'n', '_', 'd', 'e', 'c', 'r', 'e', 'a', 's', 'e'] {
        Some(Action::Deck1GainDecrease)
    } else if name == seq!['d', 'e', 'c', 'k', '2', '_', 'l', 'e', 'v', 'e', 'l', '_', 'u', 'p'] {
        Some(Action::Deck2LevelUp)
    } else if name == seq!['d', 'e', 'c', 'k', '2', '_', 'l', 'e', 'v', 'e', 'l', '_', 'd', 'o', 'w', 'n'] {
        Some(Action::Deck2LevelDown)
    } else if name == seq!['d', 'e', 'c', 'k', '2', '_', 'l', 'e', 'v', 'e', 'l', '_', 'm', 'a', 'x'] {
        Some(Action::Deck2LevelMax)
    } else if name == seq!['d', 'e', 'c', 'k', '2', '_', 'l', 'e', 'v', 'e', 'l', '_', 'm', 'i', 'n'] {
        Some(Action::Deck2LevelMin)
    } else if name == seq!['d', 'e', 'c', 'k', '2', '_', 'f', 'i', 'l', 't', 'e', 'r', '_', 'i', 'n', 'c', 'r', 'e', 'a', 's', 'e'] {
        Some(Action::Deck2FilterIncrease)
    } else if name == seq!['d', 'e', 'c', 'k', '2', '_', 'f', 'i', 'l', 't', 'e', 'r', '_', 'd', 'e', 'c', 'r', 'e', 'a', 's', 'e'] {
        Some(Action::Deck2FilterDecrease)
    } else if name == seq!['d', 'e', 'c', 'k', '2', '_', 'f', 'i', 'l', 't', 'e', 'r', '_', 'r', 'e', 's', 'e', 't'] {
        Some(Action::Deck2FilterReset)
    } else if name == seq!['d', 'e', 'c', 'k', '2', '_', 'f', 'i', 'l', 't', 'e', 'r', '_', 's', 'l', 'o', 'p', 'e', '_', 'i', 'n', 'c', 'r', 'e', 'a', 's', 'e'] {
        Some(Action::Deck2FilterSlopeIncrease)
    } else if name == seq!['d', 'e', 'c', 'k', '2', '_', 'f', 'i', 'l', 't', 'e', 'r', '_', 's', 'l', 'o', 'p', 'e', '_', 'd', 'e', 'c', 'r', 'e', 'a', 's', 'e'] {
        Some(Action::Deck2FilterSlopeDecrease)
    } else if name == seq!['d', 'e', 'c', 'k', '2', '_', 'g', 'a', 'i', 'n', '_', 'i', 'n', 'c', 'r', 'e', 'a', 's', 'e'] {
        Some(Action::Deck2GainIncrease)
    } else if name == seq!['d', 'e', 'c', 'k', '2', '_', 'g', 'a', 'i', 'n', '_', 'd', 'e', 'c', 'r', 'e', 'a', 's', 'e'] {
        Some(Action::Deck2GainDecrease)
    } else if name == seq!['d', 'e', 'c', 'k', '3', '_', 'l', 'e', 'v', 'e', 'l', '_', 'u', 'p'] {
        Some(Action::Deck3LevelUp)
    } else if name == seq!['d', 'e', 'c', 'k', '3', '_', 'l', 'e', 'v', 'e', 'l', '_', 'd', 'o', 'w', 'n'] {
        Some(Action::Deck3LevelDown)
    } else if name == seq!['d', 'e', 'c', 'k', '3', '_', 'l', 'e', 'v', 'e', 'l', '_', 'm', 'a', 'x'] {
        Some(Action::Deck3LevelMax)
    } else if name == seq!['d', 'e', 'c', 'k', '3', '_', 'l', 'e', 'v', 'e', 'l', '_', 'm', 'i', 'n'] {
        Some(Action::Deck3LevelMin)
    } else if name == seq!['d', 'e', 'c', 'k', '3', '_', 'f', 'i', 'l', 't', 'e', 'r', '_', 'i', 'n', 'c', 'r', 'e', 'a', 's', 'e'] {
        Some(Action::Deck3FilterIncrease)
    } else if name == seq!['d', 'e', 'c', 'k', '3', '_', 'f', 'i', 'l', 't', 'e', 'r', '_', 'd', 'e', 'c', 'r', 'e', 'a', 's', 'e'] {
        Some(Action::Deck3FilterDecrease)
    } else if name == seq!['d', 'e', 'c', 'k', '3', '_', 'f', 'i', 'l', 't', 'e', 'r', '_', 'r', 'e', 's', 'e', 't'] {
        Some(Action::Deck3FilterReset)
    } else if name == seq!['d', 'e', 'c', 'k', '3', '_', 'f', 'i', 'l', 't', 'e', 'r', '_', 's', 'l', 'o', 'p', 'e', '_', 'i', 'n', 'c', 'r', 'e', 'a', 's', 'e'] {
        Some(Action::Deck3FilterSlopeIncrease)
    } else if name == seq!['d', 'e', 'c', 'k', '3', '_', 'f', 'i', 'l', 't', 'e', 'r', '_', 's', 'l', 'o', 'p', 'e', '_', 'd', 'e', 'c', 'r', 'e', 'a', 's', 'e'] {
        Some(Action::Deck3FilterSlopeDecrease)
    } else if name == seq!['d', 'e', 'c', 'k', '3', '_', 'g', 'a', 'i', 'n', '_', 'i', 'n', 'c', 'r', 'e', 'a', 's', 'e'] {
        Some(Action::Deck3GainIncrease)
    } else if name == seq!['d', 'e', 'c', 'k', '3', '_', 'g', 'a', 'i', 'n', '_', 'd', 'e', 'c', 'r', 'e', 'a', 's', 'e'] {
        Some(Action::Deck3GainDecrease)
    } else if name == seq!['s', 'w', 'a', 'p', '_', 'd', 'e', 'c', 'k', '1', '_', 'd', 'e', 'c', 'k', '2'] {
        Some(Action::SwapDeck1Deck2)
    } else if name == seq!['s', 'w', 'a', 'p', '_', 'd', 'e', 'c', 'k', '2', '_', 'd', 'e', 'c', 'k', '3'] {
        Some(Action::SwapDeck2Deck3)
    } else {
        None
    }
}

/// The action named `name` in a config file, if any.
pub fn action_named(name: &str) -> (r: Option<Action>)
    ensures
        r == action_for_name(name@),
{
    let v = chars_of(name);
    if chars_eq(&v, &['q', 'u', 'i', 't']) {
        return Some(Action::Quit);
    }
    if chars_eq(&v, &['h', 'e', 'l', 'p']) {
        return Some(Action::Help);
    }
    if chars_eq(&v, &['v', 'i', 'n', 'y', 'l', '_', 'm', 'o', 'd', 'e', '_', 't', 'o', 'g', 'g', 'l', 'e']) {
        return Some(Action::VinylModeToggle);
    }
    if chars_eq(&v, &['z', 'o', 'o', 'm', '_', 'i', 'n']) {
        return Some(Action::ZoomIn);
    }
    if chars_eq(&v, &['z', 'o', 'o', 'm', '_', 'o', 'u', 't']) {
        return Some(Action::ZoomOut);
    }
    if chars_eq(&v, &['h', 'e', 'i', 'g', 'h', 't', '_', 'i', 'n', 'c', 'r', 'e', 'a', 's', 'e']) {
        return Some(Action::HeightIncrease);
    }
    if chars_eq(&v, &['h', 'e', 'i', 'g', 'h', 't', '_', 'd', 'e', 'c', 'r', 'e', 'a', 's', 'e']) {
        return Some(Action::HeightDecrease);
    }
    if chars_eq(&v, &['l', 'a', 't', 'e', 'n', 'c', 'y', '_', 'i', 'n', 'c', 'r', 'e', 'a', 's', 'e']) {
        return Some(Action::LatencyIncrease);
    }
    if chars_eq(&v, &['l', 'a', 't', 'e', 'n', 'c', 'y', '_', 'd', 'e', 'c', 'r', 'e', 'a', 's', 'e']) {
        return Some(Action::LatencyDecrease);
    }
    if chars_eq(&v, &['f', 'p', 's', '_', 'i', 'n', 'c', 'r', 'e', 'a', 's', 'e']) {
        return Some(Action::FpsIncrease);
    }
    if chars_eq(&v, &['f', 'p', 's', '_', 'd', 'e', 'c', 'r', 'e', 'a', 's', 'e']) {
        return Some(Action::FpsDecrease);
    }
    if chars_eq(&v, &['p', 'a', 'l', 'e', 't', 't', 'e', '_', 'c', 'y', 'c', 'l', 'e']) {
        return Some(Action::PaletteCycle);
    }
    if chars_eq(&v, &['n', 'u', 'd', 'g', 'e', '_', 'm', 'o', 'd', 'e', '_', 't', 'o', 'g', 'g', 'l', 'e']) {
        return Some(Action::NudgeModeToggle);
    }
    if chars_eq(&v, &['a', 'r', 't', '_', 'c', 'y', 'c', 'l', 'e']) {
        return Some(Action::ArtCycle);
    }
    if chars_eq(&v, &['s', 'e', 'l', 'e', 'c', 't', '_', 'd', 'e', 'c', 'k', '1']) {
        return Some(Action::SelectDeck1);
    }
    if chars_eq(&v, &['s', 'e', 'l', 'e', 'c', 't', '_', 'd', 'e', 'c', 'k', '2']) {
        return Some(Action::SelectDeck2);
    }
    if chars_eq(&v, &['s', 'e', 'l', 'e', 'c', 't', '_', 'd', 'e', 'c', 'k', '3']) {
        return Some(Action::SelectDeck3);
    }
    if chars_eq(&v, &['p', 'l', 'a', 'y', '_', 'p', 'a', 'u', 's', 'e']) {
        return Some(Action::PlayPause);
    }
    if chars_eq(&v, &['o', 'p', 'e', 'n', '_', 'b', 'r', 'o', 'w', 's', 'e', 'r']) {
        return Some(Action::OpenBrowser);
    }
    if chars_eq(&v, &['p', 'i', 't', 'c', 'h', '_', 'u', 'p']) {
        return Some(Action::PitchUp);
    }
    if chars_eq(&v, &['p', 'i', 't', 'c', 'h', '_', 'd', 'o', 'w', 'n']) {
        return Some(Action::PitchDown);
    }
    if chars_eq(&v, &['p', 'i', 't', 'c', 'h', '_', 'r', 'e', 's', 'e', 't']) {
        return Some(Action::PitchReset);
    }
    if chars_eq(&v, &['b', 'p', 'm', '_', 't', 'a', 'p']) {
        return Some(Action::BpmTap);
    }
    if chars_eq(&v, &['m', 'e', 't', 'r', 'o', 'n', 'o', 'm', 'e', '_', 't', 'o', 'g', 'g', 'l', 'e']) {
        return Some(Action::MetronomeToggle);
    }
    if chars_eq(&v, &['d', 'e', 't', 'e', 'c', 't', '_', 'b', 'p', 'm']) {
        return Some(Action::DetectBpm);
    }
    if chars_eq(&v, &['l', 'o', 'o', 'p', '_', 't', 'a', 'p']) {
        return Some(Action::LoopTap);
    }
    if chars_eq(&v, &['l', 'o', 'o', 'p', '_', 'e', 'x', 'i', 't']) {
        return Some(Action::LoopExit);
    }
    if chars_eq(&v, &['b', 'p', 'm', '_', 'i', 'n', 'c', 'r', 'e', 'a', 's', 'e']) {
        return Some(Action::BpmIncrease);
    }
    if chars_eq(&v, &['b', 'p', 'm', '_', 'd', 'e', 'c', 'r', 'e', 'a', 's', 'e']) {
        return Some(Action::BpmDecrease);
    }
    if chars_eq(&v, &['b', 'a', 's', 'e', '_', 'b', 'p', 'm', '_', 'i', 'n', 'c', 'r', 'e', 'a', 's', 'e']) {
        return Some(Action::BaseBpmIncrease);
    }
    if chars_eq(&v, &['b', 'a', 's', 'e', '_', 'b', 'p', 'm', '_', 'd', 'e', 'c', 'r', 'e', 'a', 's', 'e']) {
        return Some(Action::BaseBpmDecrease);
    }
    if chars_eq(&v, &['s', 'p', 'e', 'e', 'd', '_', 'r', 'e', 's', 'e', 't']) {
        return Some(Action::SpeedReset);
    }
    if chars_eq(&v, &['n', 'u', 'd', 'g', 'e', '_', 'f', 'o', 'r', 'w', 'a', 'r', 'd']) {
        return Some(Action::NudgeForward);
    }
    if chars_eq(&v, &['n', 'u', 'd', 'g', 'e', '_', 'b', 'a', 'c', 'k', 'w', 'a', 'r', 'd']) {
        return Some(Action::NudgeBackward);
    }
    if chars_eq(&v, &['o', 'f', 'f', 's', 'e', 't', '_', 'i', 'n', 'c', 'r', 'e', 'a', 's', 'e']) {
        return Some(Action::OffsetIncrease);
    }
    if chars_eq(&v, &['o', 'f', 'f', 's', 'e', 't', '_', 'd', 'e', 'c', 'r', 'e', 'a', 's', 'e']) {
        return Some(Action::OffsetDecrease);
    }
    if chars_eq(&v, &['j', 'u', 'm', 'p', '_', 'f', 'o', 'r', 'w', 'a', 'r', 'd', '_', '1', 'b', 't']) {
        return Some(Action::JumpForward1bt);
    }
    if chars_eq(&v, &['j', 'u', 'm', 'p', '_', 'b', 'a', 'c', 'k', 'w', 'a', 'r', 'd', '_', '1', 'b', 't']) {
        return Some(Action::JumpBackward1bt);
    }
    if chars_eq(&v, &['j', 'u', 'm', 'p', '_', 'f', 'o', 'r', 'w', 'a', 'r', 'd', '_', '1', 'b']) {
        return Some(Action::JumpForward1b);
    }
    if chars_eq(&v, &['j', 'u', 'm', 'p', '_', 'b', 'a', 'c', 'k', 'w', 'a', 'r', 'd', '_', '1', 'b']) {
        return Some(Action::JumpBackward1b);
    }
    if chars_eq(&v, &['j', 'u', 'm', 'p', '_', 'f', 'o', 'r', 'w', 'a', 'r', 'd', '_', '4', 'b']) {
        return Some(Action::JumpForward4b);
    }
    if chars_eq(&v, &['j', 'u', 'm', 'p', '_', 'b', 'a', 'c', 'k', 'w', 'a', 'r', 'd', '_', '4', 'b']) {
        return Some(Action::JumpBackward4b);
    }
    if chars_eq(&v, &['j', 'u', 'm', 'p', '_', 'f', 'o', 'r', 'w', 'a', 'r', 'd', '_', '8', 'b']) {
        return Some(Action::JumpForward8b);
    }
    if chars_eq(&v, &['j', 'u', 'm', 'p', '_', 'b', 'a', 'c', 'k', 'w', 'a', 'r', 'd', '_', '8', 'b']) {
        return Some(Action::JumpBackward8b);
    }
    if chars_eq(&v, &['j', 'u', 'm', 'p', '_', 'f', 'o', 'r', 'w', 'a', 'r', 'd', '_', '1', '6', 'b']) {
        return Some(Action::JumpForward16b);
    }
    if chars_eq(&v, &['j', 'u', 'm', 'p', '_', 'b', 'a', 'c', 'k', 'w', 'a', 'r', 'd', '_', '1', '6', 'b']) {
        return Some(Action::JumpBackward16b);
    }
    if chars_eq(&v, &['j', 'u', 'm', 'p', '_', 'f', 'o', 'r', 'w', 'a', 'r', 'd', '_', '3', '2', 'b']) {
        return Some(Action::JumpForward32b);
    }
    if chars_eq(&v, &['j', 'u', 'm', 'p', '_', 'b', 'a', 'c', 'k', 'w', 'a', 'r', 'd', '_', '3', '2', 'b']) {
        return Some(Action::JumpBackward32b);
    }
    if chars_eq(&v, &['j', 'u', 'm', 'p', '_', 'f', 'o', 'r', 'w', 'a', 'r', 'd', '_', '6', '4', 'b']) {
        return Some(Action::JumpForward64b);
    }
    if chars_eq(&v, &['j', 'u', 'm', 'p', '_', 'b', 'a', 'c', 'k', 'w', 'a', 'r', 'd', '_', '6', '4', 'b']) {
        return Some(Action::JumpBackward64b);
    }
    if chars_eq(&v, &['c', 'u', 'e']) {
        return Some(Action::Cue);
    }
    if chars_eq(&v, &['c', 'u', 'e', '_', 'p', 'l', 'a', 'y']) {
        return Some(Action::CuePlay);
    }
    if chars_eq(&v, &['p', 'f', 'l', '_', 'u', 'p']) {
        return Some(Action::PflLevelUp);
    }
    if chars_eq(&v, &['p', 'f', 'l', '_', 'd', 'o', 'w', 'n']) {
        return Some(Action::PflLevelDown);
    }
    if chars_eq(&v, &['p', 'f', 'l', '_', 'r', 'e', 's', 'e', 't']) {
        return Some(Action::PflLevelReset);
    }
    if chars_eq(&v, &['p', 'f', 'l', '_', 'o', 'n', '_', 'o', 'f', 'f']) {
        return Some(Action::PflOnOff);
    }
    if chars_eq(&v, &['d', 'e', 'c', 'k', '1', '_', 'l', 'e', 'v', 'e', 'l', '_', 'u', 'p']) {
        return Some(Action::Deck1LevelUp);
    }
    if chars_eq(&v, &['d', 'e', 'c', 'k', '1', '_', 'l', 'e', 'v', 'e', 'l', '_', 'd', 'o', 'w', 'n']) {
        return Some(Action::Deck1LevelDown);
    }
    if chars_eq(&v, &['d', 'e', 'c', 'k', '1', '_', 'l', 'e', 'v', 'e', 'l', '_', 'm', 'a', 'x']) {
        return Some(Action::Deck1LevelMax);
    }
    if chars_eq(&v, &['d', 'e', 'c', 'k', '1', '_', 'l', 'e', 'v', 'e', 'l', '_', 'm', 'i', 'n']) {
        return Some(Action::Deck1LevelMin);
    }
    if chars_eq(&v, &['d', 'e', 'c', 'k', '1', '_', 'f', 'i', 'l', 't', 'e', 'r', '_', 'i', 'n', 'c', 'r', 'e', 'a', 's', 'e']) {
        return Some(Action::Deck1FilterIncrease);
    }
    if chars_eq(&v, &['d', 'e', 'c', 'k', '1', '_', 'f', 'i', 'l', 't', 'e', 'r', '_', 'd', 'e', 'c', 'r', 'e', 'a', 's', 'e']) {
        return Some(Action::Deck1FilterDecrease);
    }
    if chars_eq(&v, &['d', 'e', 'c', 'k', '1', '_', 'f', 'i', 'l', 't', 'e', 'r', '_', 'r', 'e', 's', 'e', 't']) {
        return Some(Action::Deck1FilterReset);
    }
    if chars_eq(&v, &['d', 'e', 'c', 'k', '1', '_', 'f', 'i', 'l', 't', 'e', 'r', '_', 's', 'l', 'o', 'p', 'e', '_', 'i', 'n', 'c', 'r', 'e', 'a', 's', 'e']) {
        return Some(Action::Deck1FilterSlopeIncrease);
    }
    if chars_eq(&v, &['d', 'e', 'c', 'k', '1', '_', 'f', 'i', 'l', 't', 'e', 'r', '_', 's', 'l', 'o', 'p', 'e', '_', 'd', 'e', 'c', 'r', 'e', 'a', 's', 'e']) {
        return Some(Action::Deck1FilterSlopeDecrease);
    }
    if chars_eq(&v, &['d', 'e', 'c', 'k', '1', '_', 'g', 'a', 'i', 'n', '_', 'i', 'n', 'c', 'r', 'e', 'a', 's', 'e']) {
        return Some(Action::Deck1GainIncrease);
    }
    if chars_eq(&v, &['d', 'e', 'c', 'k', '1', '_', 'g', 'a', 'i', 'n', '_', 'd', 'e', 'c', 'r', 'e', 'a', 's', 'e']) {
        return Some(Action::Deck1GainDecrease);
    }
    if chars_eq(&v, &['d', 'e', 'c', 'k', '2', '_', 'l', 'e', 'v', 'e', 'l', '_', 'u', 'p']) {
        return Some(Action::Deck2LevelUp);
    }
    if chars_eq(&v, &['d', 'e', 'c', 'k', '2', '_', 'l', 'e', 'v', 'e', 'l', '_', 'd', 'o', 'w', 'n']) {
        return Some(Action::Deck2LevelDown);
    }
    if chars_eq(&v, &['d', 'e', 'c', 'k', '2', '_', 'l', 'e', 'v', 'e', 'l', '_', 'm', 'a', 'x']) {
        return Some(Action::Deck2LevelMax);
    }
    if chars_eq(&v, &['d', 'e', 'c', 'k', '2', '_', 'l', 'e', 'v', 'e', 'l', '_', 'm', 'i', 'n']) {
        return Some(Action::Deck2LevelMin);
    }
    if chars_eq(&v, &['d', 'e', 'c', 'k', '2', '_', 'f', 'i', 'l', 't', 'e', 'r', '_', 'i', 'n', 'c', 'r', 'e', 'a', 's', 'e']) {
        return Some(Action::Deck2FilterIncrease);
    }
    if chars_eq(&v, &['d', 'e', 'c', 'k', '2', '_', 'f', 'i', 'l', 't', 'e', 'r', '_', 'd', 'e', 'c', 'r', 'e', 'a', 's', 'e']) {
        return Some(Action::Deck2FilterDecrease);
    }
    if chars_eq(&v, &['d', 'e', 'c', 'k', '2', '_', 'f', 'i', 'l', 't', 'e', 'r', '_', 'r', 'e', 's', 'e', 't']) {
        return Some(Action::Deck2FilterReset);
    }
    if chars_eq(&v, &['d', 'e', 'c', 'k', '2', '_', 'f', 'i', 'l', 't', 'e', 'r', '_', 's', 'l', 'o', 'p', 'e', '_', 'i', 'n', 'c', 'r', 'e', 'a', 's', 'e']) {
        return Some(Action::Deck2FilterSlopeIncrease);
    }
    if chars_eq(&v, &['d', 'e', 'c', 'k', '2', '_', 'f', 'i', 'l', 't', 'e', 'r', '_', 's', 'l', 'o', 'p', 'e', '_', 'd', 'e', 'c', 'r', 'e', 'a', 's', 'e']) {
        return Some(Action::Deck2FilterSlopeDecrease);
    }
    if chars_eq(&v, &['d', 'e', 'c', 'k', '2', '_', 'g', 'a', 'i', 'n', '_', 'i', 'n', 'c', 'r', 'e', 'a', 's', 'e']) {
        return Some(Action::Deck2GainIncrease);
    }
    if chars_eq(&v, &['d', 'e', 'c', 'k', '2', '_', 'g', 'a', 'i', 'n', '_', 'd', 'e', 'c', 'r', 'e', 'a', 's', 'e']) {
        return Some(Action::Deck2GainDecrease);
    }
    if chars_eq(&v, &['d', 'e', 'c', 'k', '3', '_', 'l', 'e', 'v', 'e', 'l', '_', 'u', 'p']) {
        return Some(Action::Deck3LevelUp);
    }
    if chars_eq(&v, &['d', 'e', 'c', 'k', '3', '_', 'l', 'e', 'v', 'e', 'l', '_', 'd', 'o', 'w', 'n']) {
        return Some(Action::Deck3LevelDown);
    }
    if chars_eq(&v, &['d', 'e', 'c', 'k', '3', '_', 'l', 'e', 'v', 'e', 'l', '_', 'm', 'a', 'x']) {
        return Some(Action::Deck3LevelMax);
    }
    if chars_eq(&v, &['d', 'e', 'c', 'k', '3', '_', 'l', 'e', 'v', 'e', 'l', '_', 'm', 'i', 'n']) {
        return Some(Action::Deck3LevelMin);
    }
    if chars_eq(&v, &['d', 'e', 'c', 'k', '3', '_', 'f', 'i', 'l', 't', 'e', 'r', '_', 'i', 'n', 'c', 'r', 'e', 'a', 's', 'e']) {
        return Some(Action::Deck3FilterIncrease);
    }
    if chars_eq(&v, &['d', 'e', 'c', 'k', '3', '_', 'f', 'i', 'l', 't', 'e', 'r', '_', 'd', 'e', 'c', 'r', 'e', 'a', 's', 'e']) {
        return Some(Action::Deck3FilterDecrease);
    }
    if chars_eq(&v, &['d', 'e', 'c', 'k', '3', '_', 'f', 'i', 'l', 't', 'e', 'r', '_', 'r', 'e', 's', 'e', 't']) {
        return Some(Action::Deck3FilterReset);
    }
    if chars_eq(&v, &['d', 'e', 'c', 'k', '3', '_', 'f', 'i', 'l', 't', 'e', 'r', '_', 's', 'l', 'o', 'p', 'e', '_', 'i', 'n', 'c', 'r', 'e', 'a', 's', 'e']) {
        return Some(Action::Deck3FilterSlopeIncrease);
    }
    if chars_eq(&v, &['d', 'e', 'c', 'k', '3', '_', 'f', 'i', 'l', 't', 'e', 'r', '_', 's', 'l', 'o', 'p', 'e', '_', 'd', 'e', 'c', 'r', 'e', 'a', 's', 'e']) {
        return Some(Action::Deck3FilterSlopeDecrease);
    }
    if chars_eq(&v, &['d', 'e', 'c', 'k', '3', '_', 'g', 'a', 'i', 'n', '_', 'i', 'n', 'c', 'r', 'e', 'a', 's', 'e']) {
        return Some(Action::Deck3GainIncrease);
    }
    if chars_eq(&v, &['d', 'e', 'c', 'k', '3', '_', 'g', 'a', 'i', 'n', '_', 'd', 'e', 'c', 'r', 'e', 'a', 's', 'e']) {
        return Some(Action::Deck3GainDecrease);
    }
    if chars_eq(&v, &['s', 'w', 'a', 'p', '_', 'd', 'e', 'c', 'k', '1', '_', 'd', 'e', 'c', 'k', '2']) {
        return Some(Action::SwapDeck1Deck2);
    }
    if chars_eq(&v, &['s', 'w', 'a', 'p', '_', 'd', 'e', 'c', 'k', '2', '_', 'd', 'e', 'c', 'k', '3']) {
        return Some(Action::SwapDeck2Deck3);
    }
    None
}

/// A key as the config file can name it.
#[derive(Debug, Clone, Copy, PartialEq, Eq, Structural)]
pub enum Key {
    Char(char),
    Left,
    Right,
    Up,
    Down,
    Enter,
    Backspace,
    Esc,
}

/// A binding: a key alone, or held together with space.
#[derive(Debug, Clone, Copy, PartialEq, Eq, Structural)]
pub enum KeyBinding {
    Key(Key),
    SpaceChord(Key),
}

/// A key by its name in the config file; a single character names itself.
pub open spec fn bare_key_spec(s: Seq<char>) -> Option<Key> {
    if s == seq!['s', 'p', 'a', 'c', 'e'] {
        Some(Key::Char(' '))
    } else if s == seq!['l', 'e', 'f', 't'] {
        Some(Key::Left)
    } else if s == seq!['r', 'i', 'g', 'h', 't'] {
        Some(Key::Right)
    } else if s == seq!['u', 'p'] {
        Some(Key::Up)
    } else if s == seq!['d', 'o', 'w', 'n'] {
        Some(Key::Down)
    } else if s == seq!['e', 'n', 't', 'e', 'r'] {
        Some(Key::Enter)
    } else if s == seq!['b', 'a', 'c', 'k', 's', 'p', 'a', 'c', 'e'] {
        Some(Key::Backspace)
    } else if s == seq!['e', 's', 'c'] {
        Some(Key::Esc)
    } else if s.len() == 1 {
        Some(Key::Char(s[0]))
    } else {
        None
    }
}

pub fn parse_bare_key(s: &str) -> (r: Option<Key>)
    ensures
        r == bare_key_spec(s@),
{
    let v = chars_of(s);
    if chars_eq(&v, &['s', 'p', 'a', 'c', 'e']) {
        Some(Key::Char(' '))
    } else if chars_eq(&v, &['l', 'e', 'f', 't']) {
        Some(Key::Left)
    } else if chars_eq(&v, &['r', 'i', 'g', 'h', 't']) {
        Some(Key::Right)
    } else if chars_eq(&v, &['u', 'p']) {
        Some(Key::Up)
    } else if chars_eq(&v, &['d', 'o', 'w', 'n']) {
        Some(Key::Down)
    } else if chars_eq(&v, &['e', 'n', 't', 'e', 'r']) {
        Some(Key::Enter)
    } else if chars_eq(&v, &['b', 'a', 'c', 'k', 's', 'p', 'a', 'c', 'e']) {
        Some(Key::Backspace)
    } else if chars_eq(&v, &['e', 's', 'c']) {
        Some(Key::Esc)
    } else if v.len() == 1 {
        Some(Key::Char(v[0]))
    } else {
        None
    }
}

/// A binding as written in the config: `space+` before a key makes a chord.
pub open spec fn key_spec(s: Seq<char>) -> Option<KeyBinding> {
    let prefix = seq!['s', 'p', 'a', 'c', 'e', '+'];
    if s.len() >= 6 && s.take(6) == prefix {
        match bare_key_spec(s.skip(6)) {
            Some(k) => Some(KeyBinding::SpaceChord(k)),
            None => None,
        }
    } else {
        match bare_key_spec(s) {
            Some(k) => Some(KeyBinding::Key(k)),
            None => None,
        }
    }
}

pub fn parse_key(s: &str) -> (r: Option<KeyBinding>)
    ensures
        r == key_spec(s@),
{
    let v = chars_of(s);
    if v.len() >= 6 && v[0] == 's' && v[1] == 'p' && v[2] == 'a' && v[3] == 'c' && v[4] == 'e'
        && v[5] == '+' {
        assert(v@.take(6) =~= seq!['s', 'p', 'a', 'c', 'e', '+']);
        let rest = crate::text::string_of_range(&v, 6, v.len());
        assert(v@.subrange(6, v@.len() as int) =~= v@.skip(6));
        match parse_bare_key(rest.as_str()) {
            Some(k) => Some(KeyBinding::SpaceChord(k)),
            None => None,
        }
    } else {
        proof {
            if v@.len() >= 6 && v@.take(6) == seq!['s', 'p', 'a', 'c', 'e', '+'] {
                assert(v@[0] == v@.take(6)[0]);
                assert(v@[1] == v@.take(6)[1]);
                assert(v@[2] == v@.take(6)[2]);
                assert(v@[3] == v@.take(6)[3]);
                assert(v@[4] == v@.take(6)[4]);
                assert(v@[5] == v@.take(6)[5]);
            }
        }
        match parse_bare_key(s) {
            Some(k) => Some(KeyBinding::Key(k)),
            None => None,
        }
    }
}

/// The frame rates the renderer steps between.
pub open spec fn fps_levels() -> Seq<u32> {
    seq![15u32, 20, 24, 30, 45, 60, 90, 120, 240]
}

pub open spec fn distance(a: u32, b: u32) -> int {
    if a >= b {
        a - b
    } else {
        b - a
    }
}

/// `r` is the level nearest `fps`, the lower of two equally near.
pub open spec fn is_nearest_level(fps: u32, r: u32) -> bool {
    exists|k: int|
        0 <= k < fps_levels().len() && fps_levels()[k] == r && (forall|j: int|
            0 <= j < fps_levels().len() ==> distance(#[trigger] fps_levels()[j], fps) >= distance(
                r,
                fps,
            )) && (forall|j: int|
            0 <= j < k ==> distance(#[trigger] fps_levels()[j], fps) > distance(r, fps))
}

/// The supported frame rate nearest `fps`.
pub fn snap_to_fps_level(fps: u32) -> (r: u32)
    ensures
        is_nearest_level(fps, r),
{
    let levels: [u32; 9] = [15, 20, 24, 30, 45, 60, 90, 120, 240];
    assert(levels@ =~= fps_levels());
    let mut best: usize = 0;
    let mut i: usize = 1;
    while i < 9
        invariant
            levels@ == fps_levels(),
            1 <= i <= 9,
            best < i,
            forall|j: int| 0 <= j < i ==> distance(#[trigger] levels@[j], fps) >= distance(levels@[best as int], fps),
            forall|j: int| 0 <= j < best ==> distance(#[trigger] levels@[j], fps) > distance(levels@[best as int], fps),
        decreases 9 - i,
    {
        let d_i: u32 = if levels[i] >= fps { levels[i] - fps } else { fps - levels[i] };
        let d_b: u32 = if levels[best] >= fps { levels[best] - fps } else { fps - levels[best] };
        if d_i < d_b {
            best = i;
        }
        i = i + 1;
    }
    let r = levels[best];
    assert(fps_levels()[best as int] == r);
    r
}

/// An entry of the config file's `[keys]` table: its keys as text (a single
/// string is a list of one; an entry of a list that is not text has none),
/// or none when the value is neither a string nor a list.
pub open spec fn entry_view(v: Option<Vec<Option<String>>>) -> Option<Seq<Option<Seq<char>>>> {
    match v {
        Some(l) => Some(
            l@.map_values(
                |o: Option<String>|
                    match o {
                        Some(s) => Some(s@),
                        None => None,
                    },
            ),
        ),
        None => None,
    }
}

/// One entry of a table: its name, and its value when that is an integer,
/// when it is a string, and (each element when it is a string) when it is a
/// list.
pub type TomlEntry = (String, Option<i64>, Option<String>, Option<Vec<Option<String>>>);

pub type TomlEntryView = (Seq<char>, Option<i64>, Option<Seq<char>>, Option<Seq<Option<Seq<char>>>>);

pub open spec fn toml_entry_view(e: TomlEntry) -> TomlEntryView {
    (
        e.0@,
        e.1,
        match e.2 {
            Some(t) => Some(t@),
            None => None,
        },
        entry_view(e.3),
    )
}

/// The keys an entry names: a list's text elements, or a single string as a
/// list of one; none when the value is neither.
pub open spec fn entry_keys(e: TomlEntryView) -> Option<Seq<Option<Seq<char>>>> {
    match e.3 {
        Some(l) => Some(l),
        None => match e.2 {
            Some(t) => Some(seq![Some(t)]),
            None => None,
        },
    }
}

pub open spec fn toml_table_view(t: (String, Vec<TomlEntry>)) -> (
    Seq<char>,
    Seq<TomlEntryView>,
) {
    (t.0@, t.1@.map_values(|e: TomlEntry| toml_entry_view(e)))
}

/// The tables of a TOML document as `toml::from_str` reads it, in the order
/// the parsed document yields them, each with its entries in order; a value
/// at the top level that is not a table has no entries. None when the text
/// is not TOML.
pub uninterp spec fn toml_tables(text: Seq<char>) -> Option<
    Seq<(Seq<char>, Seq<(Seq<char>, Option<i64>, Option<Seq<char>>, Option<Seq<Option<Seq<char>>>>)>)>,
>;

/// `toml::from_str` into a `toml::Table`, with each table's entries read
/// out as plain values. Claimed: the result is `toml_tables` of the text, a
/// function of the text alone.
#[verifier::external_body]
fn read_toml_tables(text: &str) -> (r: Option<Vec<(String, Vec<TomlEntry>)>>)
    ensures
        match r {
            Some(v) => toml_tables(text@) == Some(v@.map_values(|t: (String, Vec<TomlEntry>)| toml_table_view(t))),
            None => toml_tables(text@) is None,
        },
{
    let doc: toml::Table = toml::from_str(text).ok()?;
    Some(doc.iter().map(|(name, t)| (name.clone(), t.as_table().into_iter().flatten().map(|(k, v)| {
        let list = v.as_array().map(|a| a.iter().map(|e| e.as_str().map(String::from)).collect());
        (k.clone(), v.as_integer(), v.as_str().map(String::from), list)
    }).collect())).collect())
}

pub type TomlTables = Seq<(Seq<char>, Seq<TomlEntryView>)>;

pub type TomlEntries = Seq<TomlEntryView>;

/// The entries of the first table named `name`.
pub open spec fn table_named(ts: TomlTables, name: Seq<char>) -> Option<TomlEntries>
    decreases ts.len(),
{
    if ts.len() == 0 {
        None
    } else if ts[0].0 == name {
        Some(ts[0].1)
    } else {
        table_named(ts.drop_first(), name)
    }
}

/// The integer of the first entry named `key`.
pub open spec fn int_named(es: TomlEntries, key: Seq<char>) -> Option<i64>
    decreases es.len(),
{
    if es.len() == 0 {
        None
    } else if es[0].0 == key {
        es[0].1
    } else {
        int_named(es.drop_first(), key)
    }
}

fn find_table(ts: &Vec<(String, Vec<TomlEntry>)>, name: &[char]) -> (r: Option<usize>)
    ensures
        match r {
            Some(i) => i < ts@.len() && table_named(
                ts@.map_values(|t: (String, Vec<TomlEntry>)| toml_table_view(t)),
                name@,
            ) == Some(toml_table_view(ts@[i as int]).1),
            None => table_named(
                ts@.map_values(|t: (String, Vec<TomlEntry>)| toml_table_view(t)),
                name@,
            ) is None,
        },
{
    let ghost tv = ts@.map_values(|t: (String, Vec<TomlEntry>)| toml_table_view(t));
    let mut i: usize = 0;
    assert(tv.skip(0) =~= tv);
    while i < ts.len()
        invariant
            i <= ts@.len(),
            tv == ts@.map_values(|t: (String, Vec<TomlEntry>)| toml_table_view(t)),
            table_named(tv, name@) == table_named(tv.skip(i as int), name@),
        decreases ts.len() - i,
    {
        assert(tv.skip(i as int).drop_first() =~= tv.skip(i + 1));
        let nv = chars_of(ts[i].0.as_str());
        if chars_eq(&nv, name) {
            return Some(i);
        }
        i = i + 1;
    }
    None
}

fn find_int(es: &Vec<TomlEntry>, key: &[char]) -> (r: Option<i64>)
    ensures
        r == int_named(es@.map_values(|e: TomlEntry| toml_entry_view(e)), key@),
{
    let ghost ev = es@.map_values(|e: TomlEntry| toml_entry_view(e));
    let mut i: usize = 0;
    assert(ev.skip(0) =~= ev);
    while i < es.len()
        invariant
            i <= es@.len(),
            ev == es@.map_values(|e: TomlEntry| toml_entry_view(e)),
            int_named(ev, key@) == int_named(ev.skip(i as int), key@),
        decreases es.len() - i,
    {
        assert(ev.skip(i as int).drop_first() =~= ev.skip(i + 1));
        let kv = chars_of(es[i].0.as_str());
        if chars_eq(&kv, key) {
            return es[i].1;
        }
        i = i + 1;
    }
    None
}

/// The display settings the config file can set.
pub struct DisplayConfig {
    /// Where the playhead sits across the waveform, 0 to 100.
    pub playhead_position: u8,
    /// Rows per detail waveform, the tick rows included.
    pub detail_height: usize,
    pub target_fps: u32,
}

impl Default for DisplayConfig {
    fn default() -> (r: Self)
        ensures
            r.playhead_position == 20,
            r.detail_height == 5,
            r.target_fps == 60,
    {
        DisplayConfig { playhead_position: 20, detail_height: 5, target_fps: 60 }
    }
}

pub open spec fn clamp_spec(v: i64, lo: i64, hi: i64) -> i64 {
    if v < lo {
        lo
    } else if v > hi {
        hi
    } else {
        v
    }
}

/// The `[display]` integers of a config text that parses.
pub open spec fn display_entries(text: Seq<char>) -> TomlEntries {
    match toml_tables(text) {
        Some(ts) => match table_named(ts, seq!['d', 'i', 's', 'p', 'l', 'a', 'y']) {
            Some(es) => es,
            None => Seq::empty(),
        },
        None => Seq::empty(),
    }
}

/// The display settings of a config text: the defaults when it is not
/// TOML; otherwise each setting from `[display]` where given (the playhead
/// clamped to 0..=100, the height at least 3, the frame rate clamped to
/// 1..=500 and snapped to the nearest supported rate), else its fallback.
pub open spec fn display_config_spec(text: Seq<char>, r: DisplayConfig) -> bool {
    let es = display_entries(text);
    let pos = int_named(es, seq!['p', 'l', 'a', 'y', 'h', 'e', 'a', 'd', '_', 'p', 'o', 's', 'i', 't', 'i', 'o', 'n']);
    let height = int_named(es, seq!['d', 'e', 't', 'a', 'i', 'l', '_', 'h', 'e', 'i', 'g', 'h', 't']);
    let fps = int_named(es, seq!['t', 'a', 'r', 'g', 'e', 't', '_', 'f', 'p', 's']);
    if toml_tables(text) is None {
        r.playhead_position == 20 && r.detail_height == 5 && r.target_fps == 60
    } else {
        &&& r.playhead_position == clamp_spec(
            match pos {
                Some(v) => v,
                None => 20,
            },
            0,
            100,
        )
        &&& r.detail_height == (match height {
            Some(v) => if v < 3 {
                3
            } else {
                v
            },
            None => 5,
        }) as usize
        &&& match fps {
            Some(v) => is_nearest_level(clamp_spec(v, 1, 500) as u32, r.target_fps),
            None => r.target_fps == 120,
        }
    }
}

fn clamp_i64(v: i64, lo: i64, hi: i64) -> (r: i64)
    requires
        lo <= hi,
    ensures
        r == clamp_spec(v, lo, hi),
{
    if v < lo {
        lo
    } else if v > hi {
        hi
    } else {
        v
    }
}

/// The display settings from the config file's text.
pub fn parse_display_config(text: &str) -> (r: DisplayConfig)
    ensures
        display_config_spec(text@, r),
{
    let tables = match read_toml_tables(text) {
        Some(t) => t,
        None => return DisplayConfig::default(),
    };
    let empty: Vec<TomlEntry> = Vec::new();
    let es: &Vec<TomlEntry> = match find_table(&tables, &['d', 'i', 's', 'p', 'l', 'a', 'y']) {
        Some(i) => &tables[i].1,
        None => &empty,
    };
    assert(es@.map_values(|e: TomlEntry| toml_entry_view(e)) =~= display_entries(text@));
    let pos = clamp_i64(
        match find_int(es, &['p', 'l', 'a', 'y', 'h', 'e', 'a', 'd', '_', 'p', 'o', 's', 'i', 't', 'i', 'o', 'n']) {
            Some(v) => v,
            None => 20,
        },
        0,
        100,
    );
    let height = match find_int(es, &['d', 'e', 't', 'a', 'i', 'l', '_', 'h', 'e', 'i', 'g', 'h', 't']) {
        Some(v) => if v < 3 {
            3
        } else {
            v
        },
        None => 5,
    };
    let fps = match find_int(es, &['t', 'a', 'r', 'g', 'e', 't', '_', 'f', 'p', 's']) {
        Some(v) => snap_to_fps_level(clamp_i64(v, 1, 500) as u32),
        None => 120,
    };
    DisplayConfig { playhead_position: pos as u8, detail_height: height as usize, target_fps: fps }
}

/// The action bound to `b` by the last pair that binds it.
pub open spec fn last_for(pairs: Seq<(KeyBinding, Action)>, b: KeyBinding) -> Option<Action>
    decreases pairs.len(),
{
    if pairs.len() == 0 {
        None
    } else if pairs.last().0 == b {
        Some(pairs.last().1)
    } else {
        last_for(pairs.drop_last(), b)
    }
}

/// Keys bound to actions, each key at most once.
pub struct Keymap {
    bindings: Vec<(KeyBinding, Action)>,
}

impl Keymap {
    pub closed spec fn pairs(&self) -> Seq<(KeyBinding, Action)> {
        self.bindings@
    }

    /// The action bound to `b`.
    pub closed spec fn get_spec(&self, b: KeyBinding) -> Option<Action> {
        last_for(self.bindings@, b)
    }

    /// Each key is bound at most once.
    pub closed spec fn wf(&self) -> bool {
        forall|i: int, j: int|
            0 <= i < j < self.bindings@.len() ==> #[trigger] self.bindings@[i].0
                != #[trigger] self.bindings@[j].0
    }

    pub fn new() -> (r: Self)
        ensures
            r.wf(),
            forall|b: KeyBinding| r.get_spec(b) is None,
    {
        Keymap { bindings: Vec::new() }
    }

    /// The action bound to `b`.
    pub fn get(&self, b: KeyBinding) -> (r: Option<Action>)
        requires
            self.wf(),
        ensures
            r == self.get_spec(b),
    {
        let mut i = self.bindings.len();
        assert(self.bindings@.take(i as int) =~= self.bindings@);
        while i > 0
            invariant
                i <= self.bindings@.len(),
                last_for(self.bindings@, b) == last_for(self.bindings@.take(i as int), b),
            decreases i,
        {
            assert(self.bindings@.take(i as int).drop_last() =~= self.bindings@.take(i - 1));
            if self.bindings[i - 1].0 == b {
                return Some(self.bindings[i - 1].1);
            }
            i = i - 1;
        }
        None
    }

    /// Bind `b` to `a`, replacing any action it had.
    pub fn insert(&mut self, b: KeyBinding, a: Action)
        requires
            old(self).wf(),
        ensures
            final(self).wf(),
            final(self).get_spec(b) == Some(a),
            forall|x: KeyBinding| x != b ==> final(self).get_spec(x) == old(self).get_spec(x),
    {
        let ghost before = self.bindings@;
        let mut i: usize = 0;
        while i < self.bindings.len()
            invariant
                i <= self.bindings@.len(),
                self.bindings@ == before,
                before == old(self).bindings@,
                forall|j: int| 0 <= j < i ==> (#[trigger] before[j]).0 != b,
                forall|p: int, q: int|
                    0 <= p < q < before.len() ==> #[trigger] before[p].0 != #[trigger] before[q].0,
            decreases self.bindings.len() - i,
        {
            if self.bindings[i].0 == b {
                self.bindings.set(i, (b, a));
                proof {
                    lemma_last_for_update(before, i as int, b, a);
                    assert(self.bindings@ == before.update(i as int, (b, a)));
                    assert forall|x: KeyBinding| x != b implies last_for(self.bindings@, x) == last_for(before, x) by {
                        assert(last_for(before.update(i as int, (b, a)), x) == last_for(before, x));
                    }
                }
                return;
            }
            i = i + 1;
        }
        self.bindings.push((b, a));
        proof {
            assert(self.bindings@.drop_last() =~= before);
            assert forall|x: KeyBinding| x != b implies last_for(self.bindings@, x) == last_for(before, x) by {
            }
        }
    }

    /// The printable key bound on its own to `action`, if any.
    pub fn bare_key_char(&self, action: Action) -> (r: Option<char>)
        requires
            self.wf(),
        ensures
            match r {
                Some(c) => self.get_spec(KeyBinding::Key(Key::Char(c))) == Some(action),
                None => forall|c: char| self.get_spec(KeyBinding::Key(Key::Char(c))) != Some(action),
            },
    {
        let mut i: usize = 0;
        while i < self.bindings.len()
            invariant
                self.wf(),
                i <= self.bindings@.len(),
                forall|j: int|
                    0 <= j < i ==> !((#[trigger] self.bindings@[j]).0 matches KeyBinding::Key(
                        Key::Char(_),
                    ) && self.bindings@[j].1 == action),
            decreases self.bindings.len() - i,
        {
            let (b, a) = self.bindings[i];
            if let KeyBinding::Key(Key::Char(c)) = b {
                if a == action {
                    proof {
                        lemma_last_for_unique(self.bindings@, i as int);
                    }
                    return Some(c);
                }
            }
            i = i + 1;
        }
        proof {
            assert forall|c: char| self.get_spec(KeyBinding::Key(Key::Char(c))) != Some(action) by {
                lemma_last_for_found(self.bindings@, KeyBinding::Key(Key::Char(c)));
            }
        }
        None
    }
}

/// With each key bound once, the action of `b` is that of the pair that
/// binds it.
proof fn lemma_last_for_unique(s: Seq<(KeyBinding, Action)>, i: int)
    requires
        0 <= i < s.len(),
        forall|p: int, q: int| 0 <= p < q < s.len() ==> #[trigger] s[p].0 != #[trigger] s[q].0,
    ensures
        last_for(s, s[i].0) == Some(s[i].1),
    decreases s.len(),
{
    if i < s.len() - 1 {
        assert(s.last().0 != s[i].0);
        assert(s.drop_last()[i] == s[i]);
        lemma_last_for_unique(s.drop_last(), i);
    }
}

/// A bound key's action comes from a pair that binds it.
proof fn lemma_last_for_found(s: Seq<(KeyBinding, Action)>, b: KeyBinding)
    ensures
        last_for(s, b) matches Some(a) ==> exists|i: int| 0 <= i < s.len() && s[i] == (b, a),
    decreases s.len(),
{
    if s.len() > 0 && s.last().0 != b {
        lemma_last_for_found(s.drop_last(), b);
        if let Some(a) = last_for(s, b) {
            let i = choose|i: int| 0 <= i < s.drop_last().len() && s.drop_last()[i] == (b, a);
            assert(s[i] == (b, a));
        }
    } else if s.len() > 0 {
        assert(s[s.len() - 1] == s.last());
    }
}

/// Replacing the action of the pair binding `b` (the only one) changes the
/// action of `b` alone.
proof fn lemma_last_for_update(s: Seq<(KeyBinding, Action)>, i: int, b: KeyBinding, a: Action)
    requires
        0 <= i < s.len(),
        s[i].0 == b,
        forall|p: int, q: int| 0 <= p < q < s.len() ==> #[trigger] s[p].0 != #[trigger] s[q].0,
    ensures
        last_for(s.update(i, (b, a)), b) == Some(a),
        forall|x: KeyBinding| x != b ==> last_for(s.update(i, (b, a)), x) == last_for(s, x),
        forall|p: int, q: int|
            0 <= p < q < s.len() ==> #[trigger] s.update(i, (b, a))[p].0 != #[trigger] s.update(
                i,
                (b, a),
            )[q].0,
    decreases s.len(),
{
    let t = s.update(i, (b, a));
    assert forall|p: int, q: int| 0 <= p < q < s.len() implies #[trigger] t[p].0 != #[trigger] t[q].0 by {
        assert(t[p].0 == s[p].0);
        assert(t[q].0 == s[q].0);
    }
    lemma_last_for_unique(t, i);
    assert forall|x: KeyBinding| x != b implies last_for(t, x) == last_for(s, x) by {
        lemma_last_for_other(s, i, b, a, x);
    }
}

proof fn lemma_last_for_other(s: Seq<(KeyBinding, Action)>, i: int, b: KeyBinding, a: Action, x: KeyBinding)
    requires
        0 <= i < s.len(),
        s[i].0 == b,
        x != b,
    ensures
        last_for(s.update(i, (b, a)), x) == last_for(s, x),
    decreases s.len(),
{
    let t = s.update(i, (b, a));
    if i < s.len() - 1 {
        assert(t.drop_last() =~= s.drop_last().update(i, (b, a)));
        assert(t.last() == s.last());
        lemma_last_for_other(s.drop_last(), i, b, a, x);
    } else {
        assert(t.drop_last() =~= s.drop_last());
    }
}

/// The bindings an entry of `[keys]` makes: each of its keys that parses,
/// bound to the action its name names.
pub open spec fn item_pairs(items: Seq<Option<Seq<char>>>, a: Action) -> Seq<(KeyBinding, Action)>
    decreases items.len(),
{
    if items.len() == 0 {
        Seq::empty()
    } else {
        item_pairs(items.drop_last(), a) + match items.last() {
            Some(s) => match key_spec(s) {
                Some(b) => seq![(b, a)],
                None => Seq::empty(),
            },
            None => Seq::empty(),
        }
    }
}

pub open spec fn entry_pairs(e: TomlEntryView) -> Seq<(KeyBinding, Action)> {
    match (action_for_name(e.0), entry_keys(e)) {
        (Some(a), Some(items)) => item_pairs(items, a),
        _ => Seq::empty(),
    }
}

/// All bindings the `[keys]` entries make, in order.
pub open spec fn bound_pairs(es: TomlEntries) -> Seq<(KeyBinding, Action)>
    decreases es.len(),
{
    if es.len() == 0 {
        Seq::empty()
    } else {
        bound_pairs(es.drop_last()) + entry_pairs(es.last())
    }
}

/// The `[keys]` entries of a config text (none when it is not TOML or has
/// no such table).
pub open spec fn key_entries(text: Seq<char>) -> TomlEntries {
    match toml_tables(text) {
        Some(ts) => match table_named(ts, seq!['k', 'e', 'y', 's']) {
            Some(es) => es,
            None => Seq::empty(),
        },
        None => Seq::empty(),
    }
}

proof fn lemma_last_for_append(p: Seq<(KeyBinding, Action)>, q: Seq<(KeyBinding, Action)>, x: KeyBinding)
    ensures
        last_for(p + q, x) == match last_for(q, x) {
            Some(a) => Some(a),
            None => last_for(p, x),
        },
    decreases q.len(),
{
    if q.len() == 0 {
        assert(p + q =~= p);
    } else {
        assert((p + q).drop_last() =~= p + q.drop_last());
        lemma_last_for_append(p, q.drop_last(), x);
    }
}

/// Apply the config file's `[keys]` table over `map`: each key an entry
/// names is bound to the entry's action, later entries winning; unknown
/// actions, malformed values and unparsable keys are skipped.
pub fn parse_keymap(text: &str, map: Keymap) -> (r: Keymap)
    requires
        map.wf(),
    ensures
        r.wf(),
        forall|b: KeyBinding|
            #[trigger] r.get_spec(b) == match last_for(bound_pairs(key_entries(text@)), b) {
                Some(a) => Some(a),
                None => map.get_spec(b),
            },
{
    let mut map = map;
    let ghost start = map;
    let tables = match read_toml_tables(text) {
        Some(t) => t,
        None => return map,
    };
    let empty: Vec<TomlEntry> = Vec::new();
    let es: &Vec<TomlEntry> = match find_table(&tables, &['k', 'e', 'y', 's']) {
        Some(i) => &tables[i].1,
        None => &empty,
    };
    let ghost ev = es@.map_values(|e: TomlEntry| toml_entry_view(e));
    assert(ev =~= key_entries(text@));
    let mut i: usize = 0;
    while i < es.len()
        invariant
            i <= es@.len(),
            ev == es@.map_values(|e: TomlEntry| toml_entry_view(e)),
            map.wf(),
            start.wf(),
            forall|b: KeyBinding|
                #[trigger] map.get_spec(b) == match last_for(bound_pairs(ev.take(i as int)), b) {
                    Some(a) => Some(a),
                    None => start.get_spec(b),
                },
        decreases es.len() - i,
    {
        assert(ev.take(i + 1).drop_last() =~= ev.take(i as int));
        assert(ev.take(i + 1).last() == ev[i as int]);
        let action = action_named(es[i].0.as_str());
        let single: Option<Vec<Option<String>>> = match (&es[i].3, &es[i].2) {
            (None, Some(t)) => {
                let one = vec![Some(string_of(&chars_of(t.as_str())))];
                proof {
                    assert(entry_view(Some(one)) == Some(seq![Some(t@)]));
                }
                Some(one)
            },
            _ => None,
        };
        let keys: Option<&Vec<Option<String>>> = match &es[i].3 {
            Some(l) => Some(l),
            None => match &single {
                Some(one) => Some(one),
                None => None,
            },
        };
        proof {
            match keys {
                Some(l) => assert(entry_keys(ev[i as int]) == entry_view(Some(*l))),
                None => assert(entry_keys(ev[i as int]) is None),
            }
        }
        match (action, keys) {
            (Some(a), Some(items)) => {
                let ghost iv = entry_view(Some(*items))->0;
                let ghost done = bound_pairs(ev.take(i as int));
                let mut j: usize = 0;
                while j < items.len()
                    invariant
                        j <= items@.len(),
                        iv == items@.map_values(
                            |o: Option<String>|
                                match o {
                                    Some(s) => Some(s@),
                                    None => None,
                                },
                        ),
                        map.wf(),
                        forall|b: KeyBinding|
                            #[trigger] map.get_spec(b) == match last_for(
                                done + item_pairs(iv.take(j as int), a),
                                b,
                            ) {
                                Some(x) => Some(x),
                                None => start.get_spec(b),
                            },
                    decreases items.len() - j,
                {
                    assert(iv.take(j + 1).drop_last() =~= iv.take(j as int));
                    let ghost prev = item_pairs(iv.take(j as int), a);
                    match &items[j] {
                        Some(s) => {
                            match parse_key(s.as_str()) {
                                Some(b) => {
                                    let ghost m0 = map;
                                    map.insert(b, a);
                                    proof {
                                        assert(item_pairs(iv.take(j + 1), a) =~= prev + seq![(b, a)]);
                                        assert forall|x: KeyBinding| #[trigger] map.get_spec(x) == match last_for(
                                            done + item_pairs(iv.take(j + 1), a),
                                            x,
                                        ) {
                                            Some(y) => Some(y),
                                            None => start.get_spec(x),
                                        } by {
                                            assert(done + (prev + seq![(b, a)]) =~= (done + prev) + seq![(b, a)]);
                                            lemma_last_for_append(done + prev, seq![(b, a)], x);
                                            assert(seq![(b, a)].drop_last() =~= Seq::<(KeyBinding, Action)>::empty());
                                            assert(seq![(b, a)].last() == (b, a));
                                            assert(last_for(Seq::<(KeyBinding, Action)>::empty(), x) is None);
                                            assert(last_for(seq![(b, a)], x) == if x == b {
                                                Some(a)
                                            } else {
                                                None::<Action>
                                            });
                                            assert(done + item_pairs(iv.take(j + 1), a) == (done + prev) + seq![(b, a)]);
                                            if x != b {
                                                assert(m0.get_spec(x) == match last_for(done + prev, x) {
                                                    Some(y) => Some(y),
                                                    None => start.get_spec(x),
                                                });
                                            }
                                        }
                                    }
                                },
                                None => {
                                    assert(item_pairs(iv.take(j + 1), a) =~= prev);
                                },
                            }
                        },
                        None => {
                            assert(item_pairs(iv.take(j + 1), a) =~= prev);
                        },
                    }
                    j = j + 1;
                }
                assert(iv.take(items@.len() as int) =~= iv);
                proof {
                    assert forall|x: KeyBinding| #[trigger] map.get_spec(x) == match last_for(
                        bound_pairs(ev.take(i + 1)),
                        x,
                    ) {
                        Some(y) => Some(y),
                        None => start.get_spec(x),
                    } by {
                        assert(bound_pairs(ev.take(i + 1)) == done + entry_pairs(ev[i as int]));
                    }
                }
            },
            _ => {
                proof {
                    assert(entry_pairs(ev[i as int]) =~= Seq::<(KeyBinding, Action)>::empty());
                    assert(bound_pairs(ev.take(i + 1)) =~= bound_pairs(ev.take(i as int)));
                }
            },
        }
        i = i + 1;
    }
    assert(ev.take(es@.len() as int) =~= ev);
    map
}

/// What a config text's `[keys]` table gets wrong.
#[derive(Debug, Clone, Copy, PartialEq, Eq, Structural)]
pub enum ConfigWarningKind {
    /// The text is not TOML.
    ParseFailed,
    /// An entry names no known function; the entry is skipped.
    UnknownFunction,
    /// An entry's value is neither a string nor a list; the entry is skipped.
    BadValue,
    /// A key names no known key; that binding is skipped.
    UnknownKey,
}

/// A warning and the name it is about: the function, or the key (without
/// its `space+` prefix); empty for a parse failure.
pub struct ConfigWarning {
    pub kind: ConfigWarningKind,
    pub name: String,
}

pub open spec fn warning_view(w: ConfigWarning) -> (ConfigWarningKind, Seq<char>) {
    (w.kind, w.name@)
}

/// A key's text without its `space+` prefix.
pub open spec fn bare_part(s: Seq<char>) -> Seq<char> {
    if s.len() >= 6 && s.take(6) == seq!['s', 'p', 'a', 'c', 'e', '+'] {
        s.skip(6)
    } else {
        s
    }
}

/// The warnings for the keys of one entry, in order.
pub open spec fn item_warnings(items: Seq<Option<Seq<char>>>) -> Seq<(ConfigWarningKind, Seq<char>)>
    decreases items.len(),
{
    if items.len() == 0 {
        Seq::empty()
    } else {
        item_warnings(items.drop_last()) + match items.last() {
            Some(k) => if key_spec(k) is None {
                seq![(ConfigWarningKind::UnknownKey, bare_part(k))]
            } else {
                Seq::empty()
            },
            None => Seq::empty(),
        }
    }
}

/// The warnings for one entry of `[keys]`.
pub open spec fn entry_warnings(e: TomlEntryView) -> Seq<(ConfigWarningKind, Seq<char>)> {
    if action_for_name(e.0) is None {
        seq![(ConfigWarningKind::UnknownFunction, e.0)]
    } else {
        match entry_keys(e) {
            Some(items) => item_warnings(items),
            None => seq![(ConfigWarningKind::BadValue, e.0)],
        }
    }
}

pub open spec fn entries_warnings(es: TomlEntries) -> Seq<(ConfigWarningKind, Seq<char>)>
    decreases es.len(),
{
    if es.len() == 0 {
        Seq::empty()
    } else {
        entries_warnings(es.drop_last()) + entry_warnings(es.last())
    }
}

/// The warnings reading a config text's keymap gives: a parse failure, or
/// each skipped entry and binding of `[keys]` in order.
pub open spec fn keymap_warnings_spec(text: Seq<char>) -> Seq<(ConfigWarningKind, Seq<char>)> {
    match toml_tables(text) {
        None => seq![(ConfigWarningKind::ParseFailed, Seq::empty())],
        Some(_) => entries_warnings(key_entries(text)),
    }
}

fn key_warning(k: &str) -> (r: Option<String>)
    ensures
        match r {
            Some(w) => key_spec(k@) is None && w@ == bare_part(k@),
            None => key_spec(k@) is Some,
        },
{
    let v = chars_of(k);
    let is_chord = v.len() >= 6 && v[0] == 's' && v[1] == 'p' && v[2] == 'a' && v[3] == 'c'
        && v[4] == 'e' && v[5] == '+';
    proof {
        if v@.len() >= 6 && v@.take(6) == seq!['s', 'p', 'a', 'c', 'e', '+'] {
            assert(v@[0] == v@.take(6)[0] && v@[1] == v@.take(6)[1] && v@[2] == v@.take(6)[2]);
            assert(v@[3] == v@.take(6)[3] && v@[4] == v@.take(6)[4] && v@[5] == v@.take(6)[5]);
        }
        if is_chord {
            assert(v@.take(6) =~= seq!['s', 'p', 'a', 'c', 'e', '+']);
        }
    }
    let bare = if is_chord {
        assert(v@.subrange(6, v@.len() as int) =~= v@.skip(6));
        crate::text::string_of_range(&v, 6, v.len())
    } else {
        string_of(&v)
    };
    match parse_key(k) {
        Some(_) => None,
        None => Some(bare),
    }
}

/// Append the warnings for one entry of `[keys]`.
#[verifier::rlimit(40)]
fn push_entry_warnings(e: &TomlEntry, out: &mut Vec<ConfigWarning>)
    ensures
        final(out)@.map_values(|w: ConfigWarning| warning_view(w)) == old(out)@.map_values(
            |w: ConfigWarning| warning_view(w),
        ) + entry_warnings(toml_entry_view(*e)),
{
    let ghost before = old(out)@.map_values(|w: ConfigWarning| warning_view(w));
    let ghost ev_i = toml_entry_view(*e);
    if action_named(e.0.as_str()).is_none() {
        out.push(ConfigWarning { kind: ConfigWarningKind::UnknownFunction, name: string_of(&chars_of(e.0.as_str())) });
        assert(out@.map_values(|w: ConfigWarning| warning_view(w)) =~= before + entry_warnings(ev_i));
    } else {
        match &e.3 {
            Some(items) => {
                let ghost iv = entry_view(Some(*items))->0;
                assert(entry_keys(ev_i) == Some(iv));
                let mut j: usize = 0;
                while j < items.len()
                    invariant
                        j <= items@.len(),
                        iv == items@.map_values(
                            |o: Option<String>|
                                match o {
                                    Some(s) => Some(s@),
                                    None => None,
                                },
                        ),
                        out@.map_values(|w: ConfigWarning| warning_view(w)) == before + item_warnings(iv.take(j as int)),
                    decreases items.len() - j,
                {
                    assert(iv.take(j + 1).drop_last() =~= iv.take(j as int));
                    assert(iv.take(j + 1).last() == iv[j as int]);
                    let ghost mid = out@.map_values(|w: ConfigWarning| warning_view(w));
                    match &items[j] {
                        Some(k) => {
                            match key_warning(k.as_str()) {
                                Some(w) => {
                                    out.push(ConfigWarning { kind: ConfigWarningKind::UnknownKey, name: w });
                                    assert(out@.map_values(|w: ConfigWarning| warning_view(w)) =~= mid + seq![(ConfigWarningKind::UnknownKey, bare_part(k@))]);
                                },
                                None => {},
                            }
                        },
                        None => {},
                    }
                    assert(out@.map_values(|w: ConfigWarning| warning_view(w)) =~= before + item_warnings(iv.take(j + 1)));
                    j = j + 1;
                }
                assert(iv.take(items@.len() as int) =~= iv);
            },
            None => {
                match &e.2 {
                    Some(t) => {
                        let ghost iv = seq![Some(t@)];
                        assert(entry_keys(ev_i) == Some(iv));
                        assert(iv.drop_last() =~= Seq::<Option<Seq<char>>>::empty());
                        assert(iv.last() == Some(t@));
                        assert(item_warnings(Seq::<Option<Seq<char>>>::empty()) =~= Seq::empty());
                        let ghost mid = out@.map_values(|w: ConfigWarning| warning_view(w));
                        match key_warning(t.as_str()) {
                            Some(w) => {
                                out.push(ConfigWarning { kind: ConfigWarningKind::UnknownKey, name: w });
                                assert(out@.map_values(|w: ConfigWarning| warning_view(w)) =~= mid + seq![(ConfigWarningKind::UnknownKey, bare_part(t@))]);
                            },
                            None => {},
                        }
                        assert(out@.map_values(|w: ConfigWarning| warning_view(w)) =~= before + item_warnings(iv));
                    },
                    None => {
                        out.push(ConfigWarning { kind: ConfigWarningKind::BadValue, name: string_of(&chars_of(e.0.as_str())) });
                        assert(out@.map_values(|w: ConfigWarning| warning_view(w)) =~= before + entry_warnings(ev_i));
                    },
                }
            },
        }
    }
}

/// The warnings reading the keymap of `text` gives, in order: the text is
/// not TOML; or, for each entry of `[keys]`, its function is unknown, its
/// value is neither a string nor a list, or one of its keys is unknown.
pub fn keymap_warnings(text: &str) -> (r: Vec<ConfigWarning>)
    ensures
        r@.map_values(|w: ConfigWarning| warning_view(w)) == keymap_warnings_spec(text@),
{
    let tables = match read_toml_tables(text) {
        Some(t) => t,
        None => {
            let out = vec![ConfigWarning { kind: ConfigWarningKind::ParseFailed, name: String::new() }];
            assert(out@.map_values(|w: ConfigWarning| warning_view(w)) =~= keymap_warnings_spec(text@));
            return out;
        },
    };
    let empty: Vec<TomlEntry> = Vec::new();
    let es: &Vec<TomlEntry> = match find_table(&tables, &['k', 'e', 'y', 's']) {
        Some(i) => &tables[i].1,
        None => &empty,
    };
    let ghost ev = es@.map_values(|e: TomlEntry| toml_entry_view(e));
    assert(ev =~= key_entries(text@));
    let mut out: Vec<ConfigWarning> = Vec::new();
    let mut i: usize = 0;
    while i < es.len()
        invariant
            i <= es@.len(),
            ev == es@.map_values(|e: TomlEntry| toml_entry_view(e)),
            out@.map_values(|w: ConfigWarning| warning_view(w)) == entries_warnings(ev.take(i as int)),
        decreases es.len() - i,
    {
        assert(ev.take(i + 1).drop_last() =~= ev.take(i as int));
        assert(ev.take(i + 1).last() == ev[i as int]);
        push_entry_warnings(&es[i], &mut out);
        assert(out@.map_values(|w: ConfigWarning| warning_view(w)) =~= entries_warnings(ev.take(i + 1)));
        i = i + 1;
    }
    assert(ev.take(es@.len() as int) =~= ev);
    out
}

} // verus!
