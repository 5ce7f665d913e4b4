//! Session state kept between runs (last browser path, workspace, audio
//! latency, art brightness), where the stores live, and when a mutated
//! store is written out: only once it has sat untouched for a second, so
//! key repeats never wait on the disk.

use crate::paths::{join, join_spec};
use vstd::prelude::*;

verus! {

/// How long, in milliseconds, a store sits untouched before it is written.
pub const SAVE_IDLE_MS: u64 = 1000;

/// The art brightness a session starts with.
pub fn default_art_bright_idx() -> (r: u8)
    ensures
        r == 1,
{
    1
}

/// The track database file, in the data directory.
pub fn track_data_path(data_dir: &str) -> (r: String)
    ensures
        r@ == join_spec(
            data_dir@,
            seq!['t', 'r', 'a', 'c', 'k', '-', 'd', 'a', 't', 'a', '.', 'j', 's', 'o', 'n'],
        ),
{
    let name = crate::text::string_of(
        &['t', 'r', 'a', 'c', 'k', '-', 'd', 'a', 't', 'a', '.', 'j', 's', 'o', 'n'],
    );
    join(data_dir, name.as_str())
}

/// The session file, in the state directory.
pub fn session_path(state_dir: &str) -> (r: String)
    ensures
        r@ == join_spec(state_dir@, seq!['s', 'e', 's', 's', 'i', 'o', 'n', '.', 'j', 's', 'o', 'n']),
{
    let name = crate::text::string_of(&['s', 'e', 's', 's', 'i', 'o', 'n', '.', 'j', 's', 'o', 'n']);
    join(state_dir, name.as_str())
}

/// The workspace copy of the track database: `track-data.json` in the
/// workspace, unless that is the canonical file itself.
pub fn mirror_path_for(canonical: &str, workspace: Option<&str>) -> (r: Option<String>)
    ensures
        match workspace {
            Some(w) => {
                let m = join_spec(
                    w@,
                    seq!['t', 'r', 'a', 'c', 'k', '-', 'd', 'a', 't', 'a', '.', 'j', 's', 'o', 'n'],
                );
                if m == canonical@ {
                    r is None
                } else {
                    r matches Some(s) && s@ == m
                }
            },
            None => r is None,
        },
{
    match workspace {
        Some(w) => {
            let m = track_data_path(w);
            let mv = crate::text::chars_of(m.as_str());
            let cv = crate::text::chars_of(canonical);
            if crate::text::chars_eq(&mv, &cv) {
                None
            } else {
                Some(m)
            }
        },
        None => None,
    }
}

/// A store marked dirty at `dirty_at` (milliseconds on a monotonic clock)
/// has sat untouched long enough by `now`.
pub open spec fn idle_spec(dirty_at: Option<u64>, now: u64) -> bool {
    match dirty_at {
        Some(t) => now >= t && now - t >= SAVE_IDLE_MS,
        None => false,
    }
}

/// True once the store has sat unmutated for a second.
pub fn idle_elapsed(dirty_at: Option<u64>, now: u64) -> (r: bool)
    ensures
        r == idle_spec(dirty_at, now),
{
    match dirty_at {
        Some(t) => now >= t && now - t >= SAVE_IDLE_MS,
        None => false,
    }
}

/// The session as stored on disk.
pub struct SessionFile {
    pub last_browser_path: Option<String>,
    pub browser_workspace: Option<String>,
    pub audio_latency_ms: i64,
    pub art_bright_idx: u8,
}

impl Default for SessionFile {
    fn default() -> (r: Self)
        ensures
            r.last_browser_path is None,
            r.browser_workspace is None,
            r.audio_latency_ms == 0,
            r.art_bright_idx == 1,
    {
        SessionFile {
            last_browser_path: None,
            browser_workspace: None,
            audio_latency_ms: 0,
            art_bright_idx: default_art_bright_idx(),
        }
    }
}

pub struct SessionState {
    path: String,
    last_browser_path: Option<String>,
    browser_workspace: Option<String>,
    audio_latency_ms: i64,
    art_bright_idx: u8,
    dirty_at: Option<u64>,
}

impl SessionState {
    /// Where the session is written.
    pub closed spec fn path_spec(&self) -> String {
        self.path
    }

    pub closed spec fn last_path_spec(&self) -> Option<String> {
        self.last_browser_path
    }

    pub closed spec fn workspace_spec(&self) -> Option<String> {
        self.browser_workspace
    }

    pub closed spec fn latency_spec(&self) -> i64 {
        self.audio_latency_ms
    }

    pub closed spec fn art_spec(&self) -> u8 {
        self.art_bright_idx
    }

    /// When the state was last changed, if it has changes not yet written.
    pub closed spec fn dirty_spec(&self) -> Option<u64> {
        self.dirty_at
    }

    /// The session read from `file`, kept at `path`. A stored workspace is
    /// kept only if it is still a directory.
    pub fn from_file(path: String, file: SessionFile, workspace_is_dir: bool) -> (r: Self)
        ensures
            r.path_spec() == path,
            r.last_path_spec() == file.last_browser_path,
            r.workspace_spec() == if workspace_is_dir {
                file.browser_workspace
            } else {
                None
            },
            r.latency_spec() == file.audio_latency_ms,
            r.art_spec() == file.art_bright_idx,
            r.dirty_spec() is None,
    {
        SessionState {
            path,
            last_browser_path: file.last_browser_path,
            browser_workspace: if workspace_is_dir {
                file.browser_workspace
            } else {
                None
            },
            audio_latency_ms: file.audio_latency_ms,
            art_bright_idx: file.art_bright_idx,
            dirty_at: None,
        }
    }

    /// Where the session is written.
    pub fn path(&self) -> (r: &str)
        ensures
            r@ == self.path_spec()@,
    {
        self.path.as_str()
    }

    /// Note a change at `now`.
    pub fn mark_dirty(&mut self, now: u64)
        ensures
            final(self).dirty_spec() == Some(now),
            final(self).path_spec() == old(self).path_spec(),
            final(self).last_path_spec() == old(self).last_path_spec(),
            final(self).workspace_spec() == old(self).workspace_spec(),
            final(self).latency_spec() == old(self).latency_spec(),
            final(self).art_spec() == old(self).art_spec(),
    {
        self.dirty_at = Some(now);
    }

    pub fn last_browser_path(&self) -> (r: Option<&str>)
        ensures
            match self.last_path_spec() {
                Some(p) => r matches Some(s) && s@ == p@,
                None => r is None,
            },
    {
        match &self.last_browser_path {
            Some(p) => Some(p.as_str()),
            None => None,
        }
    }

    pub fn set_last_browser_path(&mut self, p: &str, now: u64)
        ensures
            final(self).last_path_spec() matches Some(s) && s@ == p@,
            final(self).dirty_spec() == Some(now),
            final(self).path_spec() == old(self).path_spec(),
            final(self).workspace_spec() == old(self).workspace_spec(),
            final(self).latency_spec() == old(self).latency_spec(),
            final(self).art_spec() == old(self).art_spec(),
    {
        self.last_browser_path = Some(p.to_owned());
        self.mark_dirty(now);
    }

    pub fn workspace(&self) -> (r: Option<&str>)
        ensures
            match self.workspace_spec() {
                Some(p) => r matches Some(s) && s@ == p@,
                None => r is None,
            },
    {
        match &self.browser_workspace {
            Some(p) => Some(p.as_str()),
            None => None,
        }
    }

    pub fn set_workspace(&mut self, p: &str, now: u64)
        ensures
            final(self).workspace_spec() matches Some(s) && s@ == p@,
            final(self).dirty_spec() == Some(now),
            final(self).path_spec() == old(self).path_spec(),
            final(self).last_path_spec() == old(self).last_path_spec(),
            final(self).latency_spec() == old(self).latency_spec(),
            final(self).art_spec() == old(self).art_spec(),
    {
        self.browser_workspace = Some(p.to_owned());
        self.mark_dirty(now);
    }

    pub fn clear_workspace(&mut self, now: u64)
        ensures
            final(self).workspace_spec() is None,
            final(self).dirty_spec() == Some(now),
            final(self).path_spec() == old(self).path_spec(),
            final(self).last_path_spec() == old(self).last_path_spec(),
            final(self).latency_spec() == old(self).latency_spec(),
            final(self).art_spec() == old(self).art_spec(),
    {
        self.browser_workspace = None;
        self.mark_dirty(now);
    }

    pub fn get_latency(&self) -> (r: i64)
        ensures
            r == self.latency_spec(),
    {
        self.audio_latency_ms
    }

    pub fn set_latency(&mut self, ms: i64, now: u64)
        ensures
            final(self).latency_spec() == ms,
            final(self).dirty_spec() == Some(now),
            final(self).path_spec() == old(self).path_spec(),
            final(self).last_path_spec() == old(self).last_path_spec(),
            final(self).workspace_spec() == old(self).workspace_spec(),
            final(self).art_spec() == old(self).art_spec(),
    {
        self.audio_latency_ms = ms;
        self.mark_dirty(now);
    }

    pub fn get_art_bright_idx(&self) -> (r: u8)
        ensures
            r == self.art_spec(),
    {
        self.art_bright_idx
    }

    pub fn set_art_bright_idx(&mut self, state: u8, now: u64)
        ensures
            final(self).art_spec() == state,
            final(self).dirty_spec() == Some(now),
            final(self).path_spec() == old(self).path_spec(),
            final(self).last_path_spec() == old(self).last_path_spec(),
            final(self).workspace_spec() == old(self).workspace_spec(),
            final(self).latency_spec() == old(self).latency_spec(),
    {
        self.art_bright_idx = state;
        self.mark_dirty(now);
    }

    /// What writing the session stores.
    pub open spec fn saved_as(&self, f: SessionFile) -> bool {
        &&& f.last_browser_path == self.last_path_spec()
        &&& f.browser_workspace == self.workspace_spec()
        &&& f.audio_latency_ms == self.latency_spec()
        &&& f.art_bright_idx == self.art_spec()
    }

    /// The file to write for this session.
    pub fn save(&self) -> (r: SessionFile)
        ensures
            self.saved_as(r),
    {
        SessionFile {
            last_browser_path: self.last_browser_path.clone(),
            browser_workspace: self.browser_workspace.clone(),
            audio_latency_ms: self.audio_latency_ms,
            art_bright_idx: self.art_bright_idx,
        }
    }

    /// At `now`: when the session has sat changed and untouched for a second,
    /// hand back the file to write and consider it clean; otherwise nothing.
    pub fn flush_if_idle(&mut self, now: u64) -> (r: Option<SessionFile>)
        ensures
            idle_spec(old(self).dirty_spec(), now) ==> {
                &&& r matches Some(f) && old(self).saved_as(f)
                &&& final(self).dirty_spec() is None
            },
            !idle_spec(old(self).dirty_spec(), now) ==> r is None && final(self).dirty_spec()
                == old(self).dirty_spec(),
            final(self).path_spec() == old(self).path_spec(),
            final(self).last_path_spec() == old(self).last_path_spec(),
            final(self).workspace_spec() == old(self).workspace_spec(),
            final(self).latency_spec() == old(self).latency_spec(),
            final(self).art_spec() == old(self).art_spec(),
    {
        if idle_elapsed(self.dirty_at, now) {
            let f = self.save();
            self.dirty_at = None;
            Some(f)
        } else {
            None
        }
    }
}

} // verus!
