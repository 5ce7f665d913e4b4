//! The app's storage directories under the XDG Base Directory standard: each
//! honours its `XDG_*_HOME` override and otherwise falls back to the standard
//! place under `$HOME` (the current directory when that is unset), all scoped
//! to a `deck/` subdirectory. The environment's values are handed in.

use crate::paths::{join, join_spec};
use vstd::prelude::*;

verus! {

/// `$HOME`, or the current directory when it is unset.
pub open spec fn home_spec(home: Option<Seq<char>>) -> Seq<char> {
    match home {
        Some(h) => h,
        None => seq!['.'],
    }
}

/// The override wins; otherwise `home_relative` under the home directory;
/// then the app's own subdirectory.
pub open spec fn home_for_spec(
    override_value: Option<Seq<char>>,
    home: Option<Seq<char>>,
    home_relative: Seq<char>,
) -> Seq<char> {
    let base = match override_value {
        Some(x) => x,
        None => join_spec(home_spec(home), home_relative),
    };
    join_spec(base, seq!['d', 'e', 'c', 'k'])
}

pub open spec fn opt_view(o: Option<&str>) -> Option<Seq<char>> {
    match o {
        Some(s) => Some(s@),
        None => None,
    }
}

pub fn home_for(override_value: Option<&str>, home: Option<&str>, home_relative: &str) -> (r: String)
    ensures
        r@ == home_for_spec(opt_view(override_value), opt_view(home), home_relative@),
{
    let base = match override_value {
        Some(x) => x.to_owned(),
        None => {
            let h = match home {
                Some(h) => h.to_owned(),
                None => crate::text::string_of(&['.']),
            };
            join(h.as_str(), home_relative)
        },
    };
    let app = crate::text::string_of(&['d', 'e', 'c', 'k']);
    join(base.as_str(), app.as_str())
}

/// User configuration: `$XDG_CONFIG_HOME`, else `~/.config`.
pub fn config_dir(xdg_config_home: Option<&str>, home: Option<&str>) -> (r: String)
    ensures
        r@ == home_for_spec(opt_view(xdg_config_home), opt_view(home), seq!['.', 'c', 'o', 'n', 'f', 'i', 'g']),
{
    let rel = crate::text::string_of(&['.', 'c', 'o', 'n', 'f', 'i', 'g']);
    home_for(xdg_config_home, home, rel.as_str())
}

/// Durable per-track data: `$XDG_DATA_HOME`, else `~/.local/share`.
pub fn data_dir(xdg_data_home: Option<&str>, home: Option<&str>) -> (r: String)
    ensures
        r@ == home_for_spec(
            opt_view(xdg_data_home),
            opt_view(home),
            seq!['.', 'l', 'o', 'c', 'a', 'l', '/', 's', 'h', 'a', 'r', 'e'],
        ),
{
    let rel = crate::text::string_of(&['.', 'l', 'o', 'c', 'a', 'l', '/', 's', 'h', 'a', 'r', 'e']);
    home_for(xdg_data_home, home, rel.as_str())
}

/// Logs and session state: `$XDG_STATE_HOME`, else `~/.local/state`.
pub fn state_dir(xdg_state_home: Option<&str>, home: Option<&str>) -> (r: String)
    ensures
        r@ == home_for_spec(
            opt_view(xdg_state_home),
            opt_view(home),
            seq!['.', 'l', 'o', 'c', 'a', 'l', '/', 's', 't', 'a', 't', 'e'],
        ),
{
    let rel = crate::text::string_of(&['.', 'l', 'o', 'c', 'a', 'l', '/', 's', 't', 'a', 't', 'e']);
    home_for(xdg_state_home, home, rel.as_str())
}

/// Where a panic is logged: `panic.log` in the state directory.
pub fn panic_log_path(state_dir: &str) -> (r: String)
    ensures
        r@ == join_spec(state_dir@, seq!['p', 'a', 'n', 'i', 'c', '.', 'l', 'o', 'g']),
{
    let name = crate::text::string_of(&['p', 'a', 'n', 'i', 'c', '.', 'l', 'o', 'g']);
    join(state_dir, name.as_str())
}

} // verus!
