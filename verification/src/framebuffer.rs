//! The framebuffer: one packed color and one depth per pixel, written through
//! a depth test in which the nearer sample wins.

use crate::line::abs_diff;
use crate::line::lemma_line_advance;
use crate::line::lemma_line_ends;
use crate::line::line_error;
use crate::line::line_point;
use crate::line::line_points;
use vstd::prelude::*;

verus! {

/// The depth of a pixel that nothing has been drawn on: farther than every
/// other depth, so that any nearer sample is accepted there.
pub const DEPTH_INFINITY: i32 = 2147483647;

/// What a framebuffer holds, as plain mathematical values. Pixel `(x, y)`
/// lives at position `y * width + x` of `colors` and of `depths`.
pub struct FrameState {
    pub width: nat,
    pub height: nat,
    pub colors: Seq<u32>,
    pub depths: Seq<i32>,
    pub background: u32,
    pub current: u32,
}

impl FrameState {
    /// Both planes hold exactly one cell per pixel.
    pub open spec fn wf(self) -> bool {
        &&& self.colors.len() == self.width * self.height
        &&& self.depths.len() == self.width * self.height
    }

    /// Whether `(x, y)` names a pixel.
    pub open spec fn in_bounds(self, x: int, y: int) -> bool {
        0 <= x < self.width && 0 <= y < self.height
    }

    /// The position of pixel `(x, y)` in both planes.
    pub open spec fn index(self, x: int, y: int) -> int {
        y * self.width + x
    }

    /// Every cell back to the background color at infinite depth.
    pub open spec fn clear(self) -> FrameState {
        FrameState {
            colors: Seq::new(self.colors.len(), |i: int| self.background),
            depths: Seq::new(self.depths.len(), |i: int| DEPTH_INFINITY),
            ..self
        }
    }

    /// Whether a sample at `depth` is accepted at `(x, y)`: the pixel exists
    /// and what it holds is strictly farther.
    pub open spec fn passes(self, x: int, y: int, depth: i32) -> bool {
        self.in_bounds(x, y) && self.depths[self.index(x, y)] > depth
    }

    /// The state after a sample of the current color at `depth` was offered to
    /// `(x, y)`: stored where it passes the depth test, dropped elsewhere.
    pub open spec fn point(self, x: int, y: int, depth: i32) -> FrameState {
        if self.passes(x, y, depth) {
            FrameState {
                colors: self.colors.update(self.index(x, y), self.current),
                depths: self.depths.update(self.index(x, y), depth),
                ..self
            }
        } else {
            self
        }
    }

    /// The state with another background color, which the next clear uses.
    pub open spec fn set_background_color(self, color: u32) -> FrameState {
        FrameState { background: color, ..self }
    }

    /// The state with another current color, which the next samples carry.
    pub open spec fn set_current_color(self, color: u32) -> FrameState {
        FrameState { current: color, ..self }
    }

    /// A depth-tested write of `color`: the current color is set, then the
    /// sample is offered.
    pub open spec fn write(self, x: int, y: int, depth: i32, color: u32) -> FrameState {
        self.set_current_color(color).point(x, y, depth)
    }

    /// The state after a sample at `depth` was offered to each of `points`,
    /// first to last.
    pub open spec fn draw_points(self, points: Seq<(int, int)>, depth: i32) -> FrameState
        decreases points.len(),
    {
        if points.len() == 0 {
            self
        } else {
            self.draw_points(points.drop_last(), depth).point(
                points.last().0,
                points.last().1,
                depth,
            )
        }
    }
}

/// Drawing one point more: the state after the first `k + 1` points is the
/// state after the first `k` with a sample offered to point number `k`.
pub proof fn lemma_draw_next(s: FrameState, points: Seq<(int, int)>, k: int, depth: i32)
    requires
        0 <= k < points.len(),
    ensures
        s.draw_points(points.take(k + 1), depth) == s.draw_points(points.take(k), depth).point(
            points[k].0,
            points[k].1,
            depth,
        ),
{
    assert(points.take(k + 1).drop_last() =~= points.take(k));
    assert(points.take(k + 1).last() == points[k]);
}

/// A pixel's position lies inside the planes.
pub proof fn lemma_index_in_range(s: FrameState, x: int, y: int)
    requires
        s.wf(),
        s.in_bounds(x, y),
    ensures
        0 <= s.index(x, y) < s.colors.len(),
        0 <= s.index(x, y) < s.depths.len(),
{
    let w = s.width as int;
    let h = s.height as int;
    assert(0 <= y * w + x < w * h) by (nonlinear_arith)
        requires
            0 <= x < w,
            0 <= y < h,
    ;
}

/// No operation changes the size of a well-formed state or breaks it.
pub proof fn lemma_operations_keep_wf(s: FrameState, x: int, y: int, depth: i32, color: u32)
    requires
        s.wf(),
    ensures
        s.clear().wf(),
        s.point(x, y, depth).wf(),
        s.write(x, y, depth, color).wf(),
        s.point(x, y, depth).width == s.width,
        s.point(x, y, depth).height == s.height,
{
    if s.in_bounds(x, y) {
        lemma_index_in_range(s, x, y);
    }
}

/// Of two writes to one pixel the nearer is the one that stays, whichever
/// comes first: the pixel ends with the color and depth of the write at `d1`,
/// and no other pixel changes. The pixel must hold something farther than
/// `d1` to begin with, as every pixel does after a clear.
pub proof fn lemma_nearer_write_wins(
    s: FrameState,
    x: int,
    y: int,
    d1: i32,
    c1: u32,
    d2: i32,
    c2: u32,
)
    requires
        s.wf(),
        s.in_bounds(x, y),
        d1 < d2,
        s.depths[s.index(x, y)] > d1,
    ensures
        s.write(x, y, d1, c1).write(x, y, d2, c2).colors == s.colors.update(s.index(x, y), c1),
        s.write(x, y, d1, c1).write(x, y, d2, c2).depths == s.depths.update(s.index(x, y), d1),
        s.write(x, y, d2, c2).write(x, y, d1, c1).colors == s.colors.update(s.index(x, y), c1),
        s.write(x, y, d2, c2).write(x, y, d1, c1).depths == s.depths.update(s.index(x, y), d1),
{
    lemma_index_in_range(s, x, y);
    let i = s.index(x, y);
    let a = s.write(x, y, d1, c1).write(x, y, d2, c2);
    let b = s.write(x, y, d2, c2).write(x, y, d1, c1);
    assert(a.colors =~= s.colors.update(i, c1));
    assert(a.depths =~= s.depths.update(i, d1));
    assert(b.colors =~= s.colors.update(i, c1));
    assert(b.depths =~= s.depths.update(i, d1));
}

/// After a clear every pixel shows the background at infinite depth, and a
/// write at any depth short of infinity is accepted at any pixel.
pub proof fn lemma_write_after_clear(s: FrameState, x: int, y: int, depth: i32, color: u32)
    requires
        s.wf(),
    ensures
        forall|i: int| 0 <= i < s.width * s.height ==> s.clear().colors[i] == s.background,
        forall|i: int| 0 <= i < s.width * s.height ==> s.clear().depths[i] == DEPTH_INFINITY,
        s.in_bounds(x, y) && depth < DEPTH_INFINITY ==> {
            &&& s.clear().passes(x, y, depth)
            &&& s.clear().write(x, y, depth, color).colors[s.index(x, y)] == color
            &&& s.clear().write(x, y, depth, color).depths[s.index(x, y)] == depth
        },
{
    if s.in_bounds(x, y) {
        lemma_index_in_range(s, x, y);
    }
}

/// One write: a pixel, a depth and a packed color.
pub struct Write {
    pub x: int,
    pub y: int,
    pub depth: i32,
    pub color: u32,
}

/// The state after each of `writes` was made, first to last.
pub open spec fn after_writes(s: FrameState, writes: Seq<Write>) -> FrameState
    decreases writes.len(),
{
    if writes.len() == 0 {
        s
    } else {
        after_writes(s, writes.drop_last()).write(
            writes.last().x,
            writes.last().y,
            writes.last().depth,
            writes.last().color,
        )
    }
}

/// Whether write `w` goes to the cell at position `i` of the planes.
pub open spec fn goes_to(s: FrameState, w: Write, i: int) -> bool {
    s.in_bounds(w.x, w.y) && s.index(w.x, w.y) == i
}

/// Whether the cell at position `i` shows what the depth test owes after
/// `writes` were made to a cleared frame: no write to the cell is nearer
/// than what the cell holds; and the cell holds either the background at
/// infinite depth, or the depth and the color of one and the same write to
/// it, before which no write to it was as near.
pub open spec fn cell_shows_nearest(s: FrameState, writes: Seq<Write>, i: int) -> bool {
    let end = after_writes(s.clear(), writes);
    &&& forall|j: int|
        0 <= j < writes.len() && goes_to(s, #[trigger] writes[j], i) ==> end.depths[i]
            <= writes[j].depth
    &&& {
        ||| end.depths[i] == DEPTH_INFINITY && end.colors[i] == s.background
        ||| exists|j: int|
            {
                &&& 0 <= j < writes.len()
                &&& goes_to(s, #[trigger] writes[j], i)
                &&& writes[j].depth == end.depths[i]
                &&& writes[j].color == end.colors[i]
                &&& forall|e: int|
                    0 <= e < j && goes_to(s, #[trigger] writes[e], i) ==> writes[e].depth
                        > end.depths[i]
            }
    }
}

/// Writes keep the size of a frame.
pub proof fn lemma_after_writes_keeps_frame(s: FrameState, writes: Seq<Write>)
    requires
        s.wf(),
    ensures
        after_writes(s, writes).wf(),
        after_writes(s, writes).width == s.width,
        after_writes(s, writes).height == s.height,
        after_writes(s, writes).background == s.background,
    decreases writes.len(),
{
    if writes.len() > 0 {
        lemma_after_writes_keeps_frame(s, writes.drop_last());
        let before = after_writes(s, writes.drop_last());
        let w = writes.last();
        if before.in_bounds(w.x, w.y) {
            lemma_index_in_range(before.set_current_color(w.color), w.x, w.y);
        }
    }
}

/// Depth and color of a cell always belong together, and to the nearest
/// write. After any writes to a cleared frame, in any order, every cell
/// holds the depth and the color of the nearest write that was made to it
/// (of the first, among equally near ones), or the background at infinite
/// depth where no write came nearer than infinity.
pub proof fn lemma_cells_show_nearest_writes(s: FrameState, writes: Seq<Write>, i: int)
    requires
        s.wf(),
        0 <= i < s.width * s.height,
    ensures
        cell_shows_nearest(s, writes, i),
    decreases writes.len(),
{
    let end = after_writes(s.clear(), writes);
    if writes.len() == 0 {
        assert(end == s.clear());
    } else {
        let rest = writes.drop_last();
        let w = writes.last();
        let n = writes.len() - 1;
        let before = after_writes(s.clear(), rest);
        lemma_cells_show_nearest_writes(s, rest, i);
        lemma_after_writes_keeps_frame(s.clear(), rest);
        assert(cell_shows_nearest(s, rest, i));
        assert(forall|j: int| 0 <= j < n ==> rest[j] == writes[j]);
        let armed = before.set_current_color(w.color);
        if armed.in_bounds(w.x, w.y) {
            lemma_index_in_range(armed, w.x, w.y);
        }
        if goes_to(s, w, i) && before.depths[i] > w.depth {
            // the last write is stored in this cell
            assert(end.depths[i] == w.depth && end.colors[i] == w.color);
            assert forall|j: int|
                0 <= j < writes.len() && goes_to(s, #[trigger] writes[j], i) implies end.depths[i]
                <= writes[j].depth by {
                if j < n {
                    assert(rest[j] == writes[j]);
                }
            }
            assert forall|e: int|
                0 <= e < n && goes_to(s, #[trigger] writes[e], i) implies writes[e].depth
                > end.depths[i] by {
                assert(rest[e] == writes[e]);
            }
            assert(goes_to(s, writes[n], i));
        } else {
            // the cell is as it was before the last write
            assert(end.depths[i] == before.depths[i] && end.colors[i] == before.colors[i]);
            assert forall|j: int|
                0 <= j < writes.len() && goes_to(s, #[trigger] writes[j], i) implies end.depths[i]
                <= writes[j].depth by {
                if j < n {
                    assert(rest[j] == writes[j]);
                }
            }
            if !(before.depths[i] == DEPTH_INFINITY && before.colors[i] == s.background) {
                let j = choose|j: int|
                    {
                        &&& 0 <= j < rest.len()
                        &&& goes_to(s, #[trigger] rest[j], i)
                        &&& rest[j].depth == before.depths[i]
                        &&& rest[j].color == before.colors[i]
                        &&& forall|e: int|
                            0 <= e < j && goes_to(s, #[trigger] rest[e], i) ==> rest[e].depth
                                > before.depths[i]
                    };
                assert(writes[j] == rest[j]);
                assert forall|e: int|
                    0 <= e < j && goes_to(s, #[trigger] writes[e], i) implies writes[e].depth
                    > end.depths[i] by {
                    assert(rest[e] == writes[e]);
                }
                assert(goes_to(s, writes[j], i));
            }
        }
    }
}

/// A sample offered outside the frame changes nothing.
pub proof fn lemma_out_of_bounds_is_dropped(s: FrameState, x: int, y: int, depth: i32)
    requires
        !s.in_bounds(x, y),
    ensures
        s.point(x, y, depth) == s,
{
}

/// A sample that is not strictly nearer than what the pixel holds changes
/// nothing: among equal depths the first writer stays.
pub proof fn lemma_tie_keeps_first(s: FrameState, x: int, y: int, depth: i32)
    requires
        s.in_bounds(x, y),
        s.depths[s.index(x, y)] <= depth,
    ensures
        s.point(x, y, depth) == s,
{
}

/// A color plane and a depth plane of `width * height` pixels, with the
/// color that a clear restores and the color that samples are drawn in.
pub struct Framebuffer {
    pub width: usize,
    pub height: usize,
    pub buffer: Vec<u32>,
    pub zbuffer: Vec<i32>,
    background_color: u32,
    current_color: u32,
}

impl View for Framebuffer {
    type V = FrameState;

    closed spec fn view(&self) -> FrameState {
        FrameState {
            width: self.width as nat,
            height: self.height as nat,
            colors: self.buffer@,
            depths: self.zbuffer@,
            background: self.background_color,
            current: self.current_color,
        }
    }
}

impl Framebuffer {
    /// Both planes hold exactly one cell per pixel.
    pub open spec fn wf(&self) -> bool {
        self@.wf()
    }

    /// A frame of `width * height` black pixels at infinite depth, with a
    /// black background and white as the current color.
    pub fn new(width: usize, height: usize) -> (fb: Framebuffer)
        requires
            width * height <= usize::MAX,
        ensures
            fb.wf(),
            fb@.width == width,
            fb@.height == height,
            fb@.colors == Seq::new((width * height) as nat, |i: int| 0u32),
            fb@.depths == Seq::new((width * height) as nat, |i: int| DEPTH_INFINITY),
            fb@.background == 0,
            fb@.current == 0xFFFFFF,
    {
        let fb = Framebuffer {
            width,
            height,
            buffer: vec![0; width * height],
            zbuffer: vec![DEPTH_INFINITY; width * height],
            background_color: 0x000000,
            current_color: 0xFFFFFF,
        };
        assert(fb@.colors =~= Seq::new((width * height) as nat, |i: int| 0u32));
        assert(fb@.depths =~= Seq::new((width * height) as nat, |i: int| DEPTH_INFINITY));
        fb
    }

    /// Whether both planes hold one cell per pixel, as every frame does that
    /// was made by `new` and changed through its methods only.
    pub fn is_well_formed(&self) -> (ok: bool)
        ensures
            ok == self.wf(),
    {
        match self.width.checked_mul(self.height) {
            Some(n) => self.buffer.len() == n && self.zbuffer.len() == n,
            None => {
                assert(self.buffer.len() <= usize::MAX);
                false
            },
        }
    }

    /// The color plane: one packed color per pixel, row by row.
    pub fn colors(&self) -> (plane: &Vec<u32>)
        ensures
            plane@ == self@.colors,
    {
        &self.buffer
    }

    /// The depth plane: one depth per pixel, row by row.
    pub fn depths(&self) -> (plane: &Vec<i32>)
        ensures
            plane@ == self@.depths,
    {
        &self.zbuffer
    }

    /// The number of pixels in a row.
    pub fn width(&self) -> (w: usize)
        ensures
            w == self@.width,
    {
        self.width
    }

    /// The number of rows.
    pub fn height(&self) -> (h: usize)
        ensures
            h == self@.height,
    {
        self.height
    }

    /// Resets every pixel to the background color at infinite depth.
    pub fn clear(&mut self)
        requires
            old(self).wf(),
        ensures
            final(self)@ == old(self)@.clear(),
            final(self).wf(),
    {
        let n: usize = self.buffer.len();
        let mut i: usize = 0;
        while i < n
            invariant
                i <= n,
                self.buffer@.len() == n,
                self.zbuffer@.len() == n,
                self.width == old(self).width,
                self.height == old(self).height,
                self.background_color == old(self).background_color,
                self.current_color == old(self).current_color,
                forall|j: int| 0 <= j < i ==> self.buffer@[j] == self.background_color,
                forall|j: int| 0 <= j < i ==> self.zbuffer@[j] == DEPTH_INFINITY,
            decreases n - i,
        {
            self.buffer[i] = self.background_color;
            self.zbuffer[i] = DEPTH_INFINITY;
            i = i + 1;
        }
        assert(self@.colors =~= old(self)@.clear().colors);
        assert(self@.depths =~= old(self)@.clear().depths);
    }

    /// Offers a sample of the current color at `depth` to pixel `(x, y)`. It
    /// is stored if the pixel exists and holds something strictly farther;
    /// otherwise nothing changes. `DEPTH_INFINITY` is the depth of an empty
    /// pixel and no depth of a sample: a sample offered at it is never
    /// stored, not even on a cleared frame.
    pub fn point(&mut self, x: usize, y: usize, depth: i32)
        requires
            old(self).wf(),
        ensures
            final(self)@ == old(self)@.point(x as int, y as int, depth),
            final(self).wf(),
            depth == DEPTH_INFINITY ==> final(self)@ == old(self)@,
    {
        if x < self.width && y < self.height {
            proof {
                let w = self.width as int;
                let h = self.height as int;
                assert(0 <= y * w <= y * w + x < w * h) by (nonlinear_arith)
                    requires
                        0 <= x < w,
                        0 <= y < h,
                ;
                assert(w * h == self.buffer.len() <= usize::MAX);
            }
            let index: usize = y * self.width + x;
            if self.zbuffer[index] > depth {
                self.buffer[index] = self.current_color;
                self.zbuffer[index] = depth;
            }
        }
    }

    /// Draws the line from `(x0, y0)` to `(x1, y1)` in the current color at
    /// `depth`: a depth-tested sample at each of its pixels, the near end
    /// first. The far end itself is left to whoever draws on from there.
    pub fn draw_line(&mut self, x0: usize, y0: usize, x1: usize, y1: usize, depth: i32)
        requires
            old(self).wf(),
        ensures
            final(self)@ == old(self)@.draw_points(
                line_points(x0 as int, y0 as int, x1 as int, y1 as int),
                depth,
            ),
            final(self).wf(),
    {
        let tx: i128 = x1 as i128;
        let ty: i128 = y1 as i128;
        let mut x: i128 = x0 as i128;
        let mut y: i128 = y0 as i128;
        let dx: i128 = if x < tx { tx - x } else { x - tx };
        let dy: i128 = if y < ty { y - ty } else { ty - y };
        let sx: i128 = if x < tx { 1 } else { -1 };
        let sy: i128 = if y < ty { 1 } else { -1 };
        let mut err: i128 = dx + dy;
        let ghost points = line_points(x0 as int, y0 as int, x1 as int, y1 as int);
        let ghost mut k: int = 0;
        proof {
            lemma_line_ends(x0 as int, y0 as int, x1 as int, y1 as int, 0);
            assert(points.take(0) =~= Seq::<(int, int)>::empty());
        }
        while x != tx || y != ty
            invariant
                self.wf(),
                tx == x1,
                ty == y1,
                dx == abs_diff(x0 as int, x1 as int),
                dy == -abs_diff(y0 as int, y1 as int),
                sx == if x0 < x1 { 1int } else { -1int },
                sy == if y0 < y1 { 1int } else { -1int },
                points == line_points(x0 as int, y0 as int, x1 as int, y1 as int),
                0 <= k <= points.len(),
                (x as int, y as int) == line_point(x0 as int, y0 as int, x1 as int, y1 as int, k),
                err == line_error(dx as int, -dy, k),
                self@ == old(self)@.draw_points(points.take(k), depth),
            decreases points.len() - k,
        {
            proof {
                lemma_line_ends(x0 as int, y0 as int, x1 as int, y1 as int, k);
                lemma_line_advance(
                    x0 as int,
                    y0 as int,
                    x1 as int,
                    y1 as int,
                    k,
                    x as int,
                    y as int,
                    err as int,
                );
                lemma_draw_next(old(self)@, points, k, depth);
            }
            self.point(x as usize, y as usize, depth);
            let e2: i128 = 2 * err;
            if e2 >= dy {
                err += dy;
                x += sx;
            }
            if e2 <= dx {
                err += dx;
                y += sy;
            }
            proof {
                k = k + 1;
            }
        }
        proof {
            lemma_line_ends(x0 as int, y0 as int, x1 as int, y1 as int, k);
            assert(points.take(k) =~= points);
        }
    }

    /// Walks the frame row by row, as whoever shows it on a screen does.
    pub fn render_to_screen(&self)
        requires
            self.wf(),
    {
        let mut y: usize = 0;
        while y < self.height
            invariant
                self.wf(),
            decreases self.height - y,
        {
            let mut x: usize = 0;
            while x < self.width
                invariant
                    self.wf(),
                    y < self.height,
                decreases self.width - x,
            {
                proof {
                    let w = self.width as int;
                    let h = self.height as int;
                    assert(0 <= y * w <= y * w + x < w * h) by (nonlinear_arith)
                        requires
                            0 <= x < w,
                            0 <= y < h,
                    ;
                    assert(w * h == self.buffer.len() <= usize::MAX);
                }
                let index: usize = y * self.width + x;
                assert(index < self.buffer@.len());
                x = x + 1;
            }
            y = y + 1;
        }
    }

    /// Sets the color that the next clear restores.
    pub fn set_background_color(&mut self, color: u32)
        ensures
            final(self)@ == old(self)@.set_background_color(color),
    {
        self.background_color = color;
    }

    /// Sets the color that the next samples are drawn in.
    pub fn set_current_color(&mut self, color: u32)
        ensures
            final(self)@ == old(self)@.set_current_color(color),
    {
        self.current_color = color;
    }

    /// The color that samples are drawn in.
    pub fn get_current_color(&self) -> (color: u32)
        ensures
            color == self@.current,
    {
        self.current_color
    }
}

} // verus!
