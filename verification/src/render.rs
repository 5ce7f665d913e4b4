//! Text and glyph computations behind the display: the shared beat-tick row
//! of two decks and its window under a scrolled view, the Braille waveform
//! grid and its half-cell shift, and greedy word wrapping.

use crate::scales::Viewport;
use crate::text::{chars_of, is_whitespace, is_ws, string_of};
use vstd::prelude::*;

verus! {

broadcast use vstd::seq_lib::group_seq_properties;

/// Byte `c` of `s`, zero past either end.
pub open spec fn byte_at(s: Seq<u8>, c: int) -> u8 {
    if 0 <= c < s.len() {
        s[c]
    } else {
        0
    }
}

/// The dots deck A's tick puts in its own column: the upper half of the
/// cell, on the left dot column when the tick's low bit is set.
pub open spec fn head_a(a: u8) -> u8 {
    if a == 0 {
        0
    } else if a & 0x01 != 0 {
        0x1A
    } else {
        0x10
    }
}

/// The dots deck A's tick spills into the next column.
pub open spec fn tail_a(a: u8) -> u8 {
    if a == 0 {
        0
    } else if a & 0x01 != 0 {
        0x02
    } else {
        0x13
    }
}

/// The dots deck B's tick puts in its own column: the lower half of the
/// cell.
pub open spec fn head_b(b: u8) -> u8 {
    if b == 0 {
        0
    } else if b & 0x01 != 0 {
        0xA4
    } else {
        0x20
    }
}

/// The dots deck B's tick spills into the next column.
pub open spec fn tail_b(b: u8) -> u8 {
    if b == 0 {
        0
    } else if b & 0x01 != 0 {
        0x04
    } else {
        0x64
    }
}

/// Column `c` of the shared tick row: both decks' ticks in it, and what
/// spills over from their ticks in the column before.
pub open spec fn tick_cell(a: Seq<u8>, b: Seq<u8>, c: int) -> u8 {
    head_a(byte_at(a, c)) | head_b(byte_at(b, c)) | tail_a(byte_at(a, c - 1)) | tail_b(
        byte_at(b, c - 1),
    )
}

fn byte_or_zero(s: &[u8], c: usize) -> (r: u8)
    ensures
        r == byte_at(s@, c as int),
{
    if c < s.len() {
        s[c]
    } else {
        0
    }
}

fn head_tail(v: u8, upper: bool) -> (r: (u8, u8))
    ensures
        upper ==> r == (head_a(v), tail_a(v)),
        !upper ==> r == (head_b(v), tail_b(v)),
{
    if v == 0 {
        (0, 0)
    } else if v & 0x01 != 0 {
        if upper {
            (0x1A, 0x02)
        } else {
            (0xA4, 0x04)
        }
    } else {
        if upper {
            (0x10, 0x13)
        } else {
            (0x20, 0x64)
        }
    }
}

/// One Braille tick row shared by two decks: deck A's beat ticks hang from
/// the top of the cells, deck B's rise from the bottom, each drawn across
/// its column and the next.
pub fn compose_shared_tick_row(tick_a: &[u8], tick_b: &[u8], width: usize) -> (r: Vec<u8>)
    ensures
        r@.len() == width,
        forall|c: int| 0 <= c < width ==> #[trigger] r@[c] == tick_cell(tick_a@, tick_b@, c),
{
    let mut row: Vec<u8> = Vec::new();
    let mut c: usize = 0;
    while c < width
        invariant
            c <= width,
            row@.len() == c,
            forall|j: int| 0 <= j < c ==> #[trigger] row@[j] == tick_cell(tick_a@, tick_b@, j),
        decreases width - c,
    {
        let (ha, _) = head_tail(byte_or_zero(tick_a, c), true);
        let (hb, _) = head_tail(byte_or_zero(tick_b, c), false);
        let (pa, pb) = if c > 0 {
            let (_, ta) = head_tail(byte_or_zero(tick_a, c - 1), true);
            let (_, tb) = head_tail(byte_or_zero(tick_b, c - 1), false);
            (ta, tb)
        } else {
            (0u8, 0u8)
        };
        assert(c == 0 ==> byte_at(tick_a@, c - 1) == 0 && byte_at(tick_b@, c - 1) == 0);
        row.push(ha | hb | pa | pb);
        c = c + 1;
    }
    row
}

/// A right-dot beat tick in a tick row.
pub open spec fn right_tick() -> u8 {
    0xB8
}

/// A left-dot beat tick in a tick row.
pub open spec fn left_tick() -> u8 {
    0x47
}

/// Screen column `c` of the tick row `t` seen through the viewport `vp`:
/// the buffer's own cell, or, when the view is shifted by a dot, a right
/// tick moved to the left dot of the same column and a left tick moved to
/// the right dot of the column before.
pub open spec fn tick_on_screen(t: Seq<u8>, vp: Viewport, c: int) -> u8 {
    let i = vp.start + c;
    if !vp.sub_col {
        t[i]
    } else if t[i + 1] == left_tick() {
        right_tick()
    } else if t[i] == right_tick() {
        left_tick()
    } else {
        0
    }
}

/// The viewport's window, and the cell after it when shifted by a dot, lie
/// in a tick row of `len` cells.
pub open spec fn window_fits(vp: Option<Viewport>, width: usize, len: int) -> bool {
    match vp {
        Some(v) => v.start + width + (if v.sub_col {
            1int
        } else {
            0
        }) <= len,
        None => true,
    }
}

/// The window of the tick row `tick` that the viewport `vp` shows, `width`
/// columns wide; blank where there is no viewport.
pub fn extract_tick_viewport(tick: &[u8], vp: Option<Viewport>, width: usize) -> (r: Vec<u8>)
    requires
        window_fits(vp, width, tick@.len() as int),
    ensures
        r@.len() == width,
        forall|c: int|
            0 <= c < width ==> #[trigger] r@[c] == match vp {
                Some(v) => tick_on_screen(tick@, v, c),
                None => 0u8,
            },
{
    let n = tick.len();
    let mut out: Vec<u8> = Vec::new();
    let mut c: usize = 0;
    while c < width
        invariant
            c <= width,
            out@.len() == c,
            n == tick@.len(),
            window_fits(vp, width, tick@.len() as int),
            forall|j: int|
                0 <= j < c ==> #[trigger] out@[j] == match vp {
                    Some(v) => tick_on_screen(tick@, v, j),
                    None => 0u8,
                },
        decreases width - c,
    {
        let b: u8 = match vp {
            None => 0,
            Some(v) => {
                let i = v.start + c;
                if !v.sub_col {
                    tick[i]
                } else if tick[i + 1] == 0x47 {
                    0xB8
                } else if tick[i] == 0xB8 {
                    0x47
                } else {
                    0
                }
            },
        };
        out.push(b);
        c = c + 1;
    }
    out
}

/// The bits of the left and right dots in row `dr` (0 to 3, top down) of
/// a Braille cell.
pub open spec fn dot_bits(dr: int) -> u8 {
    if dr == 0 {
        0x09
    } else if dr == 1 {
        0x12
    } else if dr == 2 {
        0x24
    } else {
        0xC0
    }
}

/// Dot row `d` of the column lies in the span `top..=bot`.
pub open spec fn lit(d: int, top: int, bot: int) -> bool {
    top <= d <= bot
}

/// The Braille cell in cell row `br` of a column whose dots `top..=bot`
/// are lit, both dots of each lit row.
pub open spec fn cell_bits(br: int, top: int, bot: int) -> u8 {
    (if lit(4 * br, top, bot) {
        0x09u8
    } else {
        0u8
    }) | (if lit(4 * br + 1, top, bot) {
        0x12u8
    } else {
        0u8
    }) | (if lit(4 * br + 2, top, bot) {
        0x24u8
    } else {
        0u8
    }) | (if lit(4 * br + 3, top, bot) {
        0xC0u8
    } else {
        0u8
    })
}

/// The last lit dot of a column whose span runs from `top` to `raw` in a
/// column of `total` dots: kept inside the column, and one short when the
/// span would otherwise reach past the point mirroring `top`, so that a
/// symmetric peak draws symmetrically.
pub open spec fn bottom_dot(top: int, raw: int, total: int) -> int {
    let r = if raw < total - 1 {
        raw
    } else {
        total - 1
    };
    if r > top && r + top >= total {
        r - 1
    } else {
        r
    }
}

/// The cell at row `br`, column `c` of a grid drawn from the dot spans
/// `spans` (none where a column is blank).
pub open spec fn braille_cell(spans: Seq<Option<(usize, usize)>>, rows: int, br: int, c: int) -> u8 {
    if c < spans.len() && spans[c] is Some {
        let (top, raw) = spans[c]->0;
        cell_bits(br, top as int, bottom_dot(top as int, raw as int, 4 * rows))
    } else {
        0
    }
}

fn cell_of(br: usize, top: usize, bot: usize) -> (r: u8)
    requires
        4 * br + 3 <= usize::MAX,
    ensures
        r == cell_bits(br as int, top as int, bot as int),
{
    let d = 4 * br;
    let b0: u8 = if top <= d && d <= bot {
        0x09
    } else {
        0
    };
    let b1: u8 = if top <= d + 1 && d + 1 <= bot {
        0x12
    } else {
        0
    };
    let b2: u8 = if top <= d + 2 && d + 2 <= bot {
        0x24
    } else {
        0
    };
    let b3: u8 = if top <= d + 3 && d + 3 <= bot {
        0xC0
    } else {
        0
    };
    b0 | b1 | b2 | b3
}

/// A waveform drawn in Braille: `rows` cell rows by `cols` columns, where
/// column `c` lights the dots from `spans[c] = (top, raw)` down to
/// `bottom_dot(top, raw, 4 * rows)`, or nothing.
pub fn render_braille(spans: &Vec<Option<(usize, usize)>>, rows: usize, cols: usize) -> (r: Vec<Vec<u8>>)
    requires
        4 * rows <= usize::MAX,
    ensures
        r@.len() == rows,
        forall|br: int| 0 <= br < rows ==> #[trigger] r@[br]@.len() == cols,
        forall|br: int, c: int|
            0 <= br < rows && 0 <= c < cols ==> #[trigger] r@[br]@[c] == braille_cell(
                spans@,
                rows as int,
                br,
                c,
            ),
{
    let total = 4 * rows;
    let mut grid: Vec<Vec<u8>> = Vec::new();
    let mut br: usize = 0;
    while br < rows
        invariant
            br <= rows,
            total == 4 * rows,
            grid@.len() == br,
            forall|i: int| 0 <= i < br ==> #[trigger] grid@[i]@.len() == cols,
            forall|i: int, c: int|
                0 <= i < br && 0 <= c < cols ==> #[trigger] grid@[i]@[c] == braille_cell(
                    spans@,
                    rows as int,
                    i,
                    c,
                ),
        decreases rows - br,
    {
        let mut row: Vec<u8> = Vec::new();
        let mut c: usize = 0;
        while c < cols
            invariant
                br < rows,
                total == 4 * rows,
                c <= cols,
                row@.len() == c,
                forall|j: int| 0 <= j < c ==> #[trigger] row@[j] == braille_cell(spans@, rows as int, br as int, j),
            decreases cols - c,
        {
            let cell: u8 = if c < spans.len() {
                match spans[c] {
                    Some((top, raw)) => {
                        let r = if raw < total - 1 {
                            raw
                        } else {
                            total - 1
                        };
                        let reaches = if top >= total {
                            true
                        } else {
                            r >= total - top
                        };
                        let bot = if r > top && reaches {
                            r - 1
                        } else {
                            r
                        };
                        cell_of(br, top, bot)
                    },
                    None => 0,
                }
            } else {
                0
            };
            row.push(cell);
            c = c + 1;
        }
        grid.push(row);
        br = br + 1;
    }
    grid
}

/// In a drawn column, the dots of row `dr` of the cell in row `br` are lit
/// exactly when that dot lies in the column's span: both dots, or neither.
pub proof fn lemma_braille_dots_follow_span(br: int, dr: int, top: int, bot: int)
    requires
        0 <= dr < 4,
    ensures
        cell_bits(br, top, bot) & dot_bits(dr) == (if lit(4 * br + dr, top, bot) {
            dot_bits(dr)
        } else {
            0u8
        }),
{
    let b0 = lit(4 * br, top, bot);
    let b1 = lit(4 * br + 1, top, bot);
    let b2 = lit(4 * br + 2, top, bot);
    let b3 = lit(4 * br + 3, top, bot);
    let x = cell_bits(br, top, bot);
    assert(x == (if b0 { 0x09u8 } else { 0u8 }) | (if b1 { 0x12u8 } else { 0u8 }) | (if b2 {
        0x24u8
    } else {
        0u8
    }) | (if b3 { 0xC0u8 } else { 0u8 }));
    assert(((if b0 { 0x09u8 } else { 0u8 }) | (if b1 { 0x12u8 } else { 0u8 }) | (if b2 {
        0x24u8
    } else {
        0u8
    }) | (if b3 { 0xC0u8 } else { 0u8 })) & 0x09u8 == (if b0 { 0x09u8 } else { 0u8 })) by (bit_vector);
    assert(((if b0 { 0x09u8 } else { 0u8 }) | (if b1 { 0x12u8 } else { 0u8 }) | (if b2 {
        0x24u8
    } else {
        0u8
    }) | (if b3 { 0xC0u8 } else { 0u8 })) & 0x12u8 == (if b1 { 0x12u8 } else { 0u8 })) by (bit_vector);
    assert(((if b0 { 0x09u8 } else { 0u8 }) | (if b1 { 0x12u8 } else { 0u8 }) | (if b2 {
        0x24u8
    } else {
        0u8
    }) | (if b3 { 0xC0u8 } else { 0u8 })) & 0x24u8 == (if b2 { 0x24u8 } else { 0u8 })) by (bit_vector);
    assert(((if b0 { 0x09u8 } else { 0u8 }) | (if b1 { 0x12u8 } else { 0u8 }) | (if b2 {
        0x24u8
    } else {
        0u8
    }) | (if b3 { 0xC0u8 } else { 0u8 })) & 0xC0u8 == (if b3 { 0xC0u8 } else { 0u8 })) by (bit_vector);
}

/// The right dot column of `a` (bits 3, 4, 5, 7) as the new left column
/// (bits 0, 1, 2, 6), and the left dot column of `b` as the new right one.
pub open spec fn shift_braille_half_spec(a: u8, b: u8) -> u8 {
    (((a >> 3) & 0x07) | ((a >> 1) & 0x40)) | (((b & 0x07) << 3) | ((b & 0x40) << 1))
}

/// The Braille cell half a column to the right of the pair `a`, `b`.
pub fn shift_braille_half(a: u8, b: u8) -> (r: u8)
    ensures
        r == shift_braille_half_spec(a, b),
{
    let left = ((a >> 3) & 0x07) | ((a >> 1) & 0x40);
    let right = ((b & 0x07) << 3) | ((b & 0x40) << 1);
    left | right
}

/// Shifting by half a cell takes each dot of `a`'s right column to the same
/// row of the left column, and each dot of `b`'s left column to the same row
/// of the right column: a dot is lit after the shift exactly where its
/// source dot was lit.
pub proof fn lemma_shift_braille_moves_dots(a: u8, b: u8)
    ensures
        shift_braille_half_spec(a, b) & 0x01 == 0x01 <==> a & 0x08 == 0x08,
        shift_braille_half_spec(a, b) & 0x02 == 0x02 <==> a & 0x10 == 0x10,
        shift_braille_half_spec(a, b) & 0x04 == 0x04 <==> a & 0x20 == 0x20,
        shift_braille_half_spec(a, b) & 0x40 == 0x40 <==> a & 0x80 == 0x80,
        shift_braille_half_spec(a, b) & 0x08 == 0x08 <==> b & 0x01 == 0x01,
        shift_braille_half_spec(a, b) & 0x10 == 0x10 <==> b & 0x02 == 0x02,
        shift_braille_half_spec(a, b) & 0x20 == 0x20 <==> b & 0x04 == 0x04,
        shift_braille_half_spec(a, b) & 0x80 == 0x80 <==> b & 0x40 == 0x40,
{
    assert(shift_braille_half_spec(a, b) & 0x01 == 0x01 <==> a & 0x08 == 0x08) by (bit_vector);
    assert(shift_braille_half_spec(a, b) & 0x02 == 0x02 <==> a & 0x10 == 0x10) by (bit_vector);
    assert(shift_braille_half_spec(a, b) & 0x04 == 0x04 <==> a & 0x20 == 0x20) by (bit_vector);
    assert(shift_braille_half_spec(a, b) & 0x40 == 0x40 <==> a & 0x80 == 0x80) by (bit_vector);
    assert(shift_braille_half_spec(a, b) & 0x08 == 0x08 <==> b & 0x01 == 0x01) by (bit_vector);
    assert(shift_braille_half_spec(a, b) & 0x10 == 0x10 <==> b & 0x02 == 0x02) by (bit_vector);
    assert(shift_braille_half_spec(a, b) & 0x20 == 0x20 <==> b & 0x04 == 0x04) by (bit_vector);
    assert(shift_braille_half_spec(a, b) & 0x80 == 0x80 <==> b & 0x40 == 0x40) by (bit_vector);
}

/// The position of the first whitespace character in `s`.
pub open spec fn first_ws(s: Seq<char>) -> Option<int>
    decreases s.len(),
{
    if s.len() == 0 {
        None
    } else if is_ws(s[0]) {
        Some(0)
    } else {
        match first_ws(s.drop_first()) {
            Some(i) => Some(i + 1),
            None => None,
        }
    }
}

pub proof fn lemma_first_ws(s: Seq<char>)
    ensures
        match first_ws(s) {
            Some(i) => 0 <= i < s.len() && is_ws(s[i]) && forall|j: int|
                0 <= j < i ==> !is_ws(#[trigger] s[j]),
            None => forall|j: int| 0 <= j < s.len() ==> !is_ws(#[trigger] s[j]),
        },
    decreases s.len(),
{
    if s.len() > 0 {
        lemma_first_ws(s.drop_first());
        if !is_ws(s[0]) {
            assert forall|j: int| 1 <= j < s.len() implies s.drop_first()[j - 1] == s[j] by {}
        }
    }
}

/// The words of `s`: its maximal runs of non-whitespace characters
/// (`str::split_whitespace`).
pub open spec fn ws_words(s: Seq<char>) -> Seq<Seq<char>>
    decreases s.len(),
{
    match first_ws(s) {
        None => if s.len() == 0 {
            Seq::empty()
        } else {
            seq![s]
        },
        Some(i) => {
            proof {
                lemma_first_ws(s);
            }
            let rest = ws_words(s.skip(i + 1));
            if i == 0 {
                rest
            } else {
                seq![s.take(i)] + rest
            }
        },
    }
}

/// `w` cut into pieces of `width` characters, the last perhaps shorter.
pub open spec fn chunks_of(w: Seq<char>, width: nat) -> Seq<Seq<char>>
    decreases w.len(),
{
    if w.len() == 0 || width == 0 {
        Seq::empty()
    } else if w.len() <= width {
        seq![w]
    } else {
        seq![w.take(width as int)] + chunks_of(w.skip(width as int), width)
    }
}

/// The pieces of all the words, in order.
pub open spec fn all_chunks(words: Seq<Seq<char>>, width: nat) -> Seq<Seq<char>>
    decreases words.len(),
{
    if words.len() == 0 {
        Seq::empty()
    } else {
        all_chunks(words.drop_last(), width) + chunks_of(words.last(), width)
    }
}

/// Greedy filling: the finished lines and the line being filled after the
/// pieces, each piece joining the line after a space when it fits, else
/// starting a new line.
pub open spec fn pack(chunks: Seq<Seq<char>>, width: nat) -> (Seq<Seq<char>>, Seq<char>)
    decreases chunks.len(),
{
    if chunks.len() == 0 {
        (Seq::empty(), Seq::empty())
    } else {
        let (lines, line) = pack(chunks.drop_last(), width);
        let ch = chunks.last();
        if line.len() == 0 {
            (lines, ch)
        } else if line.len() + 1 + ch.len() <= width {
            (lines, line + seq![' '] + ch)
        } else {
            (lines.push(line), ch)
        }
    }
}

/// `text` wrapped greedily into lines of at most `width` characters, words
/// longer than `width` split hard; the text as one line when `width` is
/// zero; one empty line when there are no words.
pub open spec fn wrap_spec(text: Seq<char>, width: nat) -> Seq<Seq<char>> {
    if width == 0 {
        seq![text]
    } else {
        let (lines, line) = pack(all_chunks(ws_words(text), width), width);
        let all = if line.len() > 0 {
            lines.push(line)
        } else {
            lines
        };
        if all.len() == 0 {
            seq![Seq::empty()]
        } else {
            all
        }
    }
}

/// The words of `v[from..]`, appended to `out`.
#[verifier::rlimit(40)]
fn split_ws_words(v: &Vec<char>, from: usize, out: &mut Vec<Vec<char>>)
    requires
        from <= v@.len(),
    ensures
        final(out)@.map_values(|w: Vec<char>| w@) == old(out)@.map_values(|w: Vec<char>| w@)
            + ws_words(v@.skip(from as int)),
    decreases v@.len() - from,
{
    let ghost s = v@.skip(from as int);
    proof {
        lemma_first_ws(s);
    }
    let mut i = from;
    while i < v.len() && !is_whitespace(v[i])
        invariant
            from <= i <= v@.len(),
            s == v@.skip(from as int),
            forall|j: int| 0 <= j < i - from ==> !is_ws(#[trigger] s[j]),
        decreases v.len() - i,
    {
        i = i + 1;
    }
    let mut word: Vec<char> = Vec::new();
    let mut k = from;
    while k < i
        invariant
            from <= k <= i <= v@.len(),
            word@ == v@.subrange(from as int, k as int),
        decreases i - k,
    {
        word.push(v[k]);
        assert(word@ =~= v@.subrange(from as int, k + 1));
        k = k + 1;
    }
    assert(word@ =~= s.take(i - from));
    let ghost before = out@.map_values(|w: Vec<char>| w@);
    if i == v.len() {
        assert(first_ws(s) is None);
        if i > from {
            out.push(word);
            assert(s.take(i - from) =~= s);
        }
        assert(out@.map_values(|w: Vec<char>| w@) =~= before + ws_words(s));
    } else {
        assert(first_ws(s) == Some(i - from));
        if i > from {
            out.push(word);
        }
        split_ws_words(v, i + 1, out);
        assert(v@.skip(i + 1) =~= s.skip(i - from + 1));
        assert(out@.map_values(|w: Vec<char>| w@) =~= before + ws_words(s));
    }
}

/// The pieces of `w` from `from` on, fed to the filling state.
fn feed_chunks(
    w: &Vec<char>,
    width: usize,
    lines: &mut Vec<Vec<char>>,
    line: &mut Vec<char>,
    Ghost(done): Ghost<Seq<Seq<char>>>,
)
    requires
        width > 0,
        old(lines)@.map_values(|l: Vec<char>| l@) == pack(done, width as nat).0,
        old(line)@ == pack(done, width as nat).1,
    ensures
        final(lines)@.map_values(|l: Vec<char>| l@) == pack(done + chunks_of(w@, width as nat), width as nat).0,
        final(line)@ == pack(done + chunks_of(w@, width as nat), width as nat).1,
{
    let mut from: usize = 0;
    let ghost mut fed = done;
    assert(w@.skip(0) =~= w@);
    while from < w.len()
        invariant
            width > 0,
            from <= w@.len(),
            fed + chunks_of(w@.skip(from as int), width as nat) == done + chunks_of(w@, width as nat),
            lines@.map_values(|l: Vec<char>| l@) == pack(fed, width as nat).0,
            line@ == pack(fed, width as nat).1,
        decreases w.len() - from,
    {
        let end = if w.len() - from <= width {
            w.len()
        } else {
            from + width
        };
        let mut chunk: Vec<char> = Vec::new();
        let mut k = from;
        while k < end
            invariant
                from <= k <= end <= w@.len(),
                chunk@ == w@.subrange(from as int, k as int),
            decreases end - k,
        {
            chunk.push(w[k]);
            assert(chunk@ =~= w@.subrange(from as int, k + 1));
            k = k + 1;
        }
        let ghost rest = w@.skip(from as int);
        proof {
            if end == w.len() {
                assert(chunk@ =~= rest);
                assert(chunks_of(rest, width as nat) == seq![rest]);
                assert(w@.skip(end as int) =~= Seq::<char>::empty());
            } else {
                assert(chunk@ =~= rest.take(width as int));
                assert(w@.skip(end as int) =~= rest.skip(width as int));
            }
            assert(chunks_of(rest, width as nat) == seq![chunk@] + chunks_of(
                w@.skip(end as int),
                width as nat,
            ));
        }
        let ghost next = fed.push(chunk@);
        assert(next.drop_last() =~= fed);
        // Put the piece on the line being filled, or start a new line.
        if line.len() == 0 {
            *line = chunk;
        } else if line.len() < width && chunk.len() <= width - 1 - line.len() {
            line.push(' ');
            crate::text::push_chars(line, &chunk);
            assert(line@ =~= pack(fed, width as nat).1 + seq![' '] + chunk@);
        } else {
            let mut done_line: Vec<char> = Vec::new();
            std::mem::swap(&mut done_line, line);
            let ghost prev = lines@.map_values(|l: Vec<char>| l@);
            lines.push(done_line);
            assert(lines@.map_values(|l: Vec<char>| l@) =~= prev.push(pack(fed, width as nat).1));
            *line = chunk;
        }
        proof {
            fed = next;
            assert(fed + chunks_of(w@.skip(end as int), width as nat) =~= done + chunks_of(
                w@,
                width as nat,
            ));
        }
        from = end;
    }
    assert(chunks_of(w@.skip(from as int), width as nat) =~= Seq::<Seq<char>>::empty());
    assert(fed =~= done + chunks_of(w@, width as nat));
}

/// Greedy word-wrap into lines of at most `width` characters. Words longer
/// than `width` (paths, typically) are split rather than overflowing.
pub fn wrap_words(text: &str, width: usize) -> (r: Vec<String>)
    ensures
        r@.map_values(|l: String| l@) == wrap_spec(text@, width as nat),
{
    if width == 0 {
        let mut one: Vec<String> = Vec::new();
        one.push(text.to_owned());
        assert(one@.map_values(|l: String| l@) =~= seq![text@]);
        return one;
    }
    let v = chars_of(text);
    let mut words: Vec<Vec<char>> = Vec::new();
    split_ws_words(&v, 0, &mut words);
    assert(v@.skip(0) =~= v@);
    let ghost ws = words@.map_values(|w: Vec<char>| w@);
    let mut lines: Vec<Vec<char>> = Vec::new();
    let mut line: Vec<char> = Vec::new();
    let mut i: usize = 0;
    while i < words.len()
        invariant
            width > 0,
            i <= words@.len(),
            ws == words@.map_values(|w: Vec<char>| w@),
            lines@.map_values(|l: Vec<char>| l@) == pack(all_chunks(ws.take(i as int), width as nat), width as nat).0,
            line@ == pack(all_chunks(ws.take(i as int), width as nat), width as nat).1,
        decreases words.len() - i,
    {
        feed_chunks(&words[i], width, &mut lines, &mut line, Ghost(all_chunks(ws.take(i as int), width as nat)));
        assert(ws.take(i + 1).drop_last() =~= ws.take(i as int));
        assert(ws.take(i + 1).last() == words@[i as int]@);
        i = i + 1;
    }
    assert(ws.take(words@.len() as int) =~= ws);
    if line.len() > 0 {
        let ghost prev = lines@.map_values(|l: Vec<char>| l@);
        lines.push(line);
        assert(lines@.map_values(|l: Vec<char>| l@) =~= prev.push(pack(all_chunks(ws, width as nat), width as nat).1));
    }
    if lines.len() == 0 {
        lines.push(Vec::new());
        assert(lines@.map_values(|l: Vec<char>| l@) =~= seq![Seq::<char>::empty()]);
    }
    let mut out: Vec<String> = Vec::new();
    let mut j: usize = 0;
    while j < lines.len()
        invariant
            j <= lines@.len(),
            out@.map_values(|l: String| l@) == lines@.take(j as int).map_values(|l: Vec<char>| l@),
        decreases lines.len() - j,
    {
        let s = string_of(&lines[j]);
        let ghost prev = out@;
        out.push(s);
        assert(out@ == prev.push(s));
        assert(out@.map_values(|l: String| l@) =~= prev.map_values(|l: String| l@).push(s@));
        assert(lines@.take(j + 1).map_values(|l: Vec<char>| l@) =~= lines@.take(j as int).map_values(
            |l: Vec<char>| l@,
        ).push(lines@[j as int]@));
        j = j + 1;
    }
    assert(lines@.take(lines@.len() as int) =~= lines@);
    out
}

proof fn lemma_chunks_fit(w: Seq<char>, width: nat)
    ensures
        forall|i: int|
            0 <= i < chunks_of(w, width).len() ==> 0 < (#[trigger] chunks_of(w, width)[i]).len() <= width,
    decreases w.len(),
{
    if w.len() > 0 && width > 0 && w.len() > width {
        lemma_chunks_fit(w.skip(width as int), width);
        let rest = chunks_of(w.skip(width as int), width);
        assert forall|i: int| 0 <= i < chunks_of(w, width).len() implies 0 < (#[trigger] chunks_of(
            w,
            width,
        )[i]).len() <= width by {
            if i > 0 {
                assert(chunks_of(w, width)[i] == rest[i - 1]);
            }
        }
    }
}

proof fn lemma_all_chunks_fit(words: Seq<Seq<char>>, width: nat)
    ensures
        forall|i: int|
            0 <= i < all_chunks(words, width).len() ==> 0 < (#[trigger] all_chunks(words, width)[i]).len()
                <= width,
    decreases words.len(),
{
    if words.len() > 0 {
        lemma_all_chunks_fit(words.drop_last(), width);
        lemma_chunks_fit(words.last(), width);
        let a = all_chunks(words.drop_last(), width);
        let b = chunks_of(words.last(), width);
        assert forall|i: int| 0 <= i < all_chunks(words, width).len() implies 0 < (
        #[trigger] all_chunks(words, width)[i]).len() <= width by {
            if i < a.len() {
                assert(all_chunks(words, width)[i] == a[i]);
            } else {
                assert(all_chunks(words, width)[i] == b[i - a.len()]);
            }
        }
    }
}

proof fn lemma_pack_fits(chunks: Seq<Seq<char>>, width: nat)
    requires
        forall|i: int| 0 <= i < chunks.len() ==> 0 < (#[trigger] chunks[i]).len() <= width,
    ensures
        forall|i: int| 0 <= i < pack(chunks, width).0.len() ==> (#[trigger] pack(chunks, width).0[i]).len() <= width,
        pack(chunks, width).1.len() <= width,
    decreases chunks.len(),
{
    if chunks.len() > 0 {
        assert forall|i: int| 0 <= i < chunks.drop_last().len() implies 0 < (
        #[trigger] chunks.drop_last()[i]).len() <= width by {
            assert(chunks.drop_last()[i] == chunks[i]);
        }
        lemma_pack_fits(chunks.drop_last(), width);
        assert(chunks.last() == chunks[chunks.len() - 1]);
    }
}

/// Wrapping to a positive width never makes a line longer than the width.
pub proof fn lemma_wrapped_lines_fit(text: Seq<char>, width: nat)
    requires
        width > 0,
    ensures
        forall|i: int|
            0 <= i < wrap_spec(text, width).len() ==> (#[trigger] wrap_spec(text, width)[i]).len() <= width,
{
    let chunks = all_chunks(ws_words(text), width);
    lemma_all_chunks_fit(ws_words(text), width);
    lemma_pack_fits(chunks, width);
    let (lines, line) = pack(chunks, width);
    if line.len() > 0 {
        assert forall|i: int| 0 <= i < lines.push(line).len() implies (#[trigger] lines.push(line)[i]).len()
            <= width by {
            if i < lines.len() {
                assert(lines.push(line)[i] == lines[i]);
            }
        }
    }
}

} // verus!
