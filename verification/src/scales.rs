//! The detail waveform's buffer geometry: a buffer of columns centred on an
//! anchor sample, each column a fixed number of samples wide and split into
//! two dots. Positions arrive here already rounded to a dot index relative to
//! the anchor (the one rounding step, done where the position is measured);
//! everything below is exact integer arithmetic on dots and columns.

use vstd::prelude::*;

verus! {

/// Where the visible window starts in buffer columns, and whether it is
/// shifted by one dot (half a column).
#[derive(Debug, Clone, Copy, PartialEq, Eq, Structural)]
pub struct Viewport {
    pub start: usize,
    pub sub_col: bool,
}

pub struct DetailMap {
    /// The sample at the buffer's centre.
    anchor: i64,
    /// The width of a column in samples, at least one.
    samples_per_col: usize,
    buf_cols: usize,
}

/// Floor division and its remainder, as `i64::div_euclid` and
/// `i64::rem_euclid` give them for a positive divisor.
pub open spec fn floor_div(a: int, b: int) -> int {
    a / b
}

impl DetailMap {
    pub closed spec fn anchor_spec(&self) -> i64 {
        self.anchor
    }

    pub closed spec fn spc_spec(&self) -> usize {
        self.samples_per_col
    }

    pub closed spec fn cols_spec(&self) -> usize {
        self.buf_cols
    }

    /// The map of a buffer centred on `anchor_sample`; a column is at least
    /// one sample wide.
    pub fn new(anchor_sample: usize, samples_per_col: usize, buf_cols: usize) -> (r: Self)
        requires
            anchor_sample <= i64::MAX,
        ensures
            r.anchor_spec() == anchor_sample,
            r.spc_spec() == if samples_per_col == 0 {
                1
            } else {
                samples_per_col
            },
            r.cols_spec() == buf_cols,
    {
        let spc = if samples_per_col == 0 {
            1
        } else {
            samples_per_col
        };
        DetailMap { anchor: anchor_sample as i64, samples_per_col: spc, buf_cols }
    }

    pub fn samples_per_col(&self) -> (r: usize)
        ensures
            r == self.spc_spec(),
    {
        self.samples_per_col
    }

    pub fn buf_cols(&self) -> (r: usize)
        ensures
            r == self.cols_spec(),
    {
        self.buf_cols
    }

    /// A dot index folded to its screen column: the right dot of a column
    /// rounds to the next column.
    pub fn col_of_screen_half(screen_half: i64) -> (r: i64)
        requires
            screen_half < i64::MAX,
        ensures
            r == floor_div(screen_half + 1, 2),
    {
        let s = screen_half + 1;
        let q = s / 2;
        if s % 2 < 0 {
            q - 1
        } else {
            q
        }
    }

    /// The buffer dot of the position at dot `dot` from the anchor: its
    /// column and whether it is the right dot, when it lies in the buffer.
    pub open spec fn dot_in_buffer_spec(&self, dot: i64) -> Option<(int, bool)> {
        let d = dot + self.cols_spec();
        if d < 0 || floor_div(d, 2) >= self.cols_spec() {
            None
        } else {
            Some((floor_div(d, 2), d % 2 != 0))
        }
    }

    pub fn dot_in_buffer(&self, dot: i64) -> (r: Option<(usize, bool)>)
        requires
            self.cols_spec() <= i64::MAX,
            dot + self.cols_spec() <= i64::MAX,
        ensures
            match self.dot_in_buffer_spec(dot) {
                Some((c, right)) => r == Some((c as usize, right)),
                None => r is None,
            },
    {
        let d = dot + self.buf_cols as i64;
        if d < 0 {
            return None;
        }
        let col = d / 2;
        if (col as i128) < (self.buf_cols as i128) {
            Some((col as usize, d % 2 != 0))
        } else {
            None
        }
    }

    /// The window's start column for a display position at dot `delta_half`
    /// from the anchor, with the playhead at `centre_col`.
    pub open spec fn viewport_offset(&self, delta_half: i64, centre_col: usize) -> int {
        self.cols_spec() / 2 + floor_div(delta_half as int, 2) - centre_col
    }

    /// The viewport for a display position at dot `delta_half`: the
    /// playhead pinned at `centre_col`, scrolling a dot at a time through
    /// the shift flag; none while the buffer cannot cover the window.
    pub open spec fn viewport_spec(&self, delta_half: i64, centre_col: usize, width: usize) -> Option<
        Viewport,
    > {
        let sub = delta_half % 2 != 0;
        let off = self.viewport_offset(delta_half, centre_col);
        let need = if sub {
            width + 1
        } else {
            width as int
        };
        if off >= 0 && off + need <= self.cols_spec() {
            Some(Viewport { start: off as usize, sub_col: sub })
        } else {
            None
        }
    }

    pub fn viewport(&self, delta_half: i64, centre_col: usize, width: usize) -> (r: Option<Viewport>)
        requires
            self.cols_spec() <= i64::MAX,
            centre_col <= i64::MAX,
            width < usize::MAX,
            i64::MIN <= self.viewport_offset(delta_half, centre_col) <= i64::MAX,
        ensures
            r == self.viewport_spec(delta_half, centre_col, width),
    {
        let sub_col = delta_half % 2 != 0;
        let delta_cols = if delta_half % 2 < 0 {
            delta_half / 2 - 1
        } else {
            delta_half / 2
        };
        assert(delta_cols == floor_div(delta_half as int, 2));
        let off: i128 = (self.buf_cols / 2) as i128 + delta_cols as i128 - centre_col as i128;
        let need: i128 = if sub_col {
            width as i128 + 1
        } else {
            width as i128
        };
        if off >= 0 && off + need <= self.buf_cols as i128 {
            Some(Viewport { start: off as usize, sub_col })
        } else {
            None
        }
    }

    /// The screen column where a mark renders whose dot, counted from the
    /// buffer's left edge, is `disp_half`, in the viewport of a display
    /// position at dot `delta_half` from the anchor with the playhead at
    /// `centre_col`.
    pub open spec fn content_col_spec(&self, disp_half: i64, delta_half: i64, centre_col: usize) -> int {
        let sub: int = if delta_half % 2 != 0 {
            1
        } else {
            0
        };
        floor_div(disp_half - 2 * self.viewport_offset(delta_half, centre_col) - sub + 1, 2)
    }

    pub fn content_col(&self, disp_half: i64, delta_half: i64, centre_col: usize) -> (r: i64)
        requires
            self.cols_spec() <= i64::MAX,
            centre_col <= i64::MAX,
            i64::MIN <= disp_half - 2 * self.viewport_offset(delta_half, centre_col) - 1,
            disp_half - 2 * self.viewport_offset(delta_half, centre_col) + 1 <= i64::MAX,
        ensures
            r == self.content_col_spec(disp_half, delta_half, centre_col),
    {
        let sub: i128 = if delta_half % 2 != 0 {
            1
        } else {
            0
        };
        let dh = delta_half as i128;
        let delta_cols: i128 = if dh % 2 < 0 {
            dh / 2 - 1
        } else {
            dh / 2
        };
        assert(delta_cols == floor_div(delta_half as int, 2));
        let off: i128 = (self.buf_cols / 2) as i128 + delta_cols - centre_col as i128;
        let s: i128 = disp_half as i128 - 2 * off - sub + 1;
        let q: i128 = if s % 2 < 0 {
            s / 2 - 1
        } else {
            s / 2
        };
        q as i64
    }

    /// A mark a fixed `offset_half` dots from the playhead: its column is
    /// the centre column plus the dots folded to columns, wherever the view
    /// has scrolled.
    pub fn playhead_anchored_col(offset_half: i64, centre_col: usize) -> (r: i64)
        requires
            offset_half < i64::MAX,
            centre_col + floor_div(offset_half + 1, 2) <= i64::MAX,
            centre_col <= i64::MAX,
        ensures
            r == centre_col + floor_div(offset_half + 1, 2),
    {
        centre_col as i64 + Self::col_of_screen_half(offset_half)
    }
}


/// A mark at the display position itself lands on the playhead's column,
/// for any position and any centre: the display position's dot from the
/// buffer's left edge is its dot from the anchor plus the half buffer.
pub proof fn lemma_playhead_mark_on_centre(m: DetailMap, delta_half: i64, centre_col: usize)
    requires
        delta_half + 2 * (m.cols_spec() / 2) <= i64::MAX,
    ensures
        m.content_col_spec(
            (delta_half + 2 * (m.cols_spec() / 2)) as i64,
            delta_half,
            centre_col,
        ) == centre_col,
{
}

/// Scrolling forward never moves a fixed mark to the right: for a mark at
/// dot `disp_half` from the buffer's left edge, `content_col` gives a column
/// that falls (weakly) as the display position's dot from the anchor grows.
pub proof fn lemma_content_col_monotone(
    m: DetailMap,
    disp_half: i64,
    d1: i64,
    d2: i64,
    centre_col: usize,
)
    requires
        d1 <= d2,
    ensures
        m.content_col_spec(disp_half, d2, centre_col) <= m.content_col_spec(disp_half, d1, centre_col),
{
}

/// Wherever the buffer covers the window, the window lies inside the
/// buffer and the playhead's own mark sits on the centre column.
pub proof fn lemma_viewport_frames_playhead(m: DetailMap, delta_half: i64, centre_col: usize, width: usize)
    requires
        m.viewport_spec(delta_half, centre_col, width) is Some,
        delta_half + 2 * (m.cols_spec() / 2) <= i64::MAX,
    ensures
        m.viewport_spec(delta_half, centre_col, width)->0.start + width <= m.cols_spec(),
        m.content_col_spec(
            (delta_half + 2 * (m.cols_spec() / 2)) as i64,
            delta_half,
            centre_col,
        ) == centre_col,
{
    lemma_playhead_mark_on_centre(m, delta_half, centre_col);
}

} // verus!
