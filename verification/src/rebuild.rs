//! When a deck's pre-rendered detail buffer is rebuilt. A parameter change
//! (zoom-scaled column width, BPM, grid offset, cue, gain) waits for the
//! inputs to sit still, yet during a sustained ramp the buffer still
//! rebuilds at a steady rate; drift of the playhead away from the buffer's
//! anchor, a resize or zoom, and a new track rebuild at once. Also where
//! the cue falls in a rebuilt buffer. Times are milliseconds on the
//! caller's monotonic clock.

use vstd::prelude::*;

verus! {

/// Parameter changes rebuild once unchanged for this many milliseconds.
pub const SETTLE_MS: u64 = 50;

/// While parameters keep changing, rebuild at most this often.
pub const THROTTLE_MS: u64 = 100;

/// The inputs a buffer's content depends on, besides its size, zoom and
/// anchor: the column width in samples (at least one), and the BPM, grid
/// offset, cue and gain as the deck publishes them.
#[derive(Debug, Clone, Copy, PartialEq, Eq, Structural)]
pub struct SlotParams {
    pub col_samp: usize,
    pub bpm_raw: u32,
    pub off_ms: i64,
    pub cue_raw: i64,
    pub gain_raw: u32,
}

/// A slot's rebuild bookkeeping: the parameters and anchor of its live
/// buffer (none before the first build), the parameters last seen and when
/// they were first seen unchanged, when it was last rebuilt, and the load
/// generation it was built for.
#[derive(Debug, Clone, Copy)]
pub struct SlotRebuild {
    pub built: Option<SlotParams>,
    pub built_anchor: usize,
    pub seen: Option<(SlotParams, u64)>,
    pub last_rebuild: u64,
    pub last_gen: usize,
}

impl SlotRebuild {
    /// A built buffer's columns are at least one sample wide.
    pub open spec fn wf(self) -> bool {
        self.built matches Some(p) ==> p.col_samp >= 1
    }
}

/// `b - a`, or nothing when `b` comes first.
pub open spec fn elapsed(a: u64, b: u64) -> int {
    if b >= a {
        b - a
    } else {
        0
    }
}

/// The bookkeeping before any build, started at `now`.
pub fn fresh(now: u64) -> (r: SlotRebuild)
    ensures
        r.wf(),
        r == (SlotRebuild {
            built: None,
            built_anchor: 0,
            seen: None,
            last_rebuild: now,
            last_gen: usize::MAX,
        }),
{
    SlotRebuild { built: None, built_anchor: 0, seen: None, last_rebuild: now, last_gen: usize::MAX }
}

/// Looking at the slot at `now` with `params`: the bookkeeping after (the
/// parameters remembered with when they were first seen unchanged), and
/// whether to rebuild. A rebuild is due at once when the shared size or zoom
/// changed, the deck loaded a new track, or the playhead at `pos` drifted
/// three quarters of the screen's `cols` columns from the anchor; and, when
/// the parameters differ from the built ones, once they have sat unchanged
/// for the settle time or the throttle time has passed since the last
/// rebuild.
pub open spec fn due_spec(
    s: SlotRebuild,
    params: SlotParams,
    pos: usize,
    load_gen: usize,
    shared_changed: bool,
    cols: usize,
    now: u64,
) -> (SlotRebuild, bool) {
    let (s1, first_seen) = match s.seen {
        Some((p, t)) => if p == params {
            (s, t)
        } else {
            (SlotRebuild { seen: Some((params, now)), ..s }, now)
        },
        None => (SlotRebuild { seen: Some((params, now)), ..s }, now),
    };
    let drift: int = match s.built {
        Some(bp) => (if pos >= s.built_anchor {
            pos - s.built_anchor
        } else {
            s.built_anchor - pos
        }) / (bp.col_samp as int),
        None => usize::MAX as int,
    };
    let immediate = shared_changed || load_gen != s.last_gen || drift >= (cols * 3) / 4;
    let changed = s.built != Some(params);
    let settled = changed && elapsed(first_seen, now) >= SETTLE_MS;
    let ramping = changed && elapsed(s.last_rebuild, now) >= THROTTLE_MS;
    (s1, immediate || settled || ramping)
}

pub fn rebuild_due(
    s: &mut SlotRebuild,
    params: SlotParams,
    pos: usize,
    load_gen: usize,
    shared_changed: bool,
    cols: usize,
    now: u64,
) -> (r: bool)
    requires
        old(s).wf(),
        cols * 3 <= usize::MAX,
    ensures
        final(s).wf(),
        (*final(s), r) == due_spec(*old(s), params, pos, load_gen, shared_changed, cols, now),
{
    let first_seen = match s.seen {
        Some((p, t)) => {
            if p == params {
                t
            } else {
                s.seen = Some((params, now));
                now
            }
        },
        None => {
            s.seen = Some((params, now));
            now
        },
    };
    let drift: usize = match s.built {
        Some(bp) => (if pos >= s.built_anchor {
            pos - s.built_anchor
        } else {
            s.built_anchor - pos
        }) / bp.col_samp,
        None => usize::MAX,
    };
    let immediate = shared_changed || load_gen != s.last_gen || drift >= (cols * 3) / 4;
    let changed = match s.built {
        Some(bp) => bp != params,
        None => true,
    };
    let settled = changed && (if now >= first_seen {
        now - first_seen
    } else {
        0
    }) >= SETTLE_MS;
    let ramping = changed && (if now >= s.last_rebuild {
        now - s.last_rebuild
    } else {
        0
    }) >= THROTTLE_MS;
    immediate || settled || ramping
}

/// The anchor a rebuild uses: the playhead floored onto the column grid.
pub fn anchor_for(pos: usize, col_samp: usize) -> (r: usize)
    requires
        col_samp >= 1,
    ensures
        r == pos - pos % col_samp,
        r <= pos < r + col_samp,
{
    let q = pos / col_samp;
    assert(q * col_samp == pos - pos % col_samp && pos % col_samp < col_samp) by (nonlinear_arith)
        requires
            col_samp >= 1,
            q == pos / col_samp,
    ;
    q * col_samp
}

/// Record a rebuild of the slot at `now` with `params`, anchored at
/// `anchor`, for load generation `load_gen`.
pub fn record_rebuild(s: &mut SlotRebuild, params: SlotParams, anchor: usize, load_gen: usize, now: u64)
    requires
        params.col_samp >= 1,
    ensures
        final(s).wf(),
        *final(s) == (SlotRebuild {
            built: Some(params),
            built_anchor: anchor,
            last_rebuild: now,
            last_gen: load_gen,
            ..*old(s)
        }),
{
    s.last_rebuild = now;
    s.built = Some(params);
    s.built_anchor = anchor;
    s.last_gen = load_gen;
}

/// The buffer column of the cue at sample `cue_raw` (none when negative), in
/// a buffer of `buf_cols` columns of `col_samp` samples centred on `anchor`,
/// when it falls inside.
pub open spec fn cue_col_spec(cue_raw: i64, anchor: usize, col_samp: usize, buf_cols: usize) -> Option<int> {
    if cue_raw < 0 || col_samp == 0 {
        None
    } else {
        let col = buf_cols / 2 + (cue_raw - anchor) / (col_samp as int);
        if 0 <= col < buf_cols {
            Some(col)
        } else {
            None
        }
    }
}

pub fn cue_buf_col(cue_raw: i64, anchor: usize, col_samp: usize, buf_cols: usize) -> (r: Option<usize>)
    requires
        anchor <= i64::MAX,
        buf_cols <= i64::MAX,
        col_samp <= i64::MAX,
    ensures
        match cue_col_spec(cue_raw, anchor, col_samp, buf_cols) {
            Some(c) => r == Some(c as usize),
            None => r is None,
        },
{
    if cue_raw < 0 || col_samp == 0 {
        return None;
    }
    let delta: i128 = cue_raw as i128 - anchor as i128;
    let cs: u128 = col_samp as u128;
    let q: i128 = if delta >= 0 {
        let d: u128 = delta as u128;
        let qq: u128 = d / cs;
        assert(qq as int == (delta as int) / (cs as int));
        qq as i128
    } else {
        let m: u128 = (-delta) as u128;
        let qq: u128 = (m + cs - 1) / cs;
        assert(-(qq as int) == (delta as int) / (cs as int)) by (nonlinear_arith)
            requires
                cs >= 1,
                m == -delta,
                delta < 0,
                qq as int == (m as int + cs as int - 1) / (cs as int),
        ;
        -(qq as i128)
    };
    let col: i128 = (buf_cols / 2) as i128 + q;
    if col >= 0 && col < buf_cols as i128 {
        Some(col as usize)
    } else {
        None
    }
}

} // verus!
