//! A terminal DJ player's verified core: content identity of audio files,
//! resilient playlists and how their entries are located again, the message
//! log format and its history view, the file browser's cursor model and
//! search, the playlist panel, the track database and session state, the
//! configuration and keymap, the player's input step and screen layout, the
//! detail view's geometry and rebuilds, and the small pure helpers around them.

pub mod text;
pub mod paths;
pub mod paths_laws;
pub mod ranking;
pub mod identity;
pub mod identity_laws;
pub mod error_reports;
pub mod calendar_laws;
pub mod stamp_order;
pub mod messages;
pub mod messages_laws;
pub mod history;
pub mod browser;
pub mod playlist;
pub mod resolution;
pub mod panel;
pub mod session;
pub mod tracks;
pub mod rebuild;
pub mod xdg;
pub mod config;
pub mod deck;
pub mod render;
pub mod scales;
pub mod ui;
pub mod key_laws;
