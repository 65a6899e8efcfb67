//! A software framebuffer with clipped 2D drawing primitives.
//!
//! A [`Screen`] wraps a caller-supplied RGBA8888 pixel buffer of known width
//! and height for the duration of one frame. Every primitive clips to the
//! buffer: sample points outside `[0, width) x [0, height)` are silently
//! skipped, so no operation ever panics or writes out of bounds, and pixels
//! not covered by the primitive are left exactly as they were.

use vstd::prelude::*;

use crate::objects::{Color, Rect, Vec2};
use crate::texture::Texture;

verus! {

/// Bytes per pixel: RGBA8888.
pub const DEPTH: usize = 4;

/// Byte offset of pixel `(x, y)` in a buffer of width `w`.
pub open spec fn pix_off(w: int, x: int, y: int) -> int {
    (y * w + x) * 4
}

/// Whether `(x, y)` lies inside a `w` by `h` buffer.
pub open spec fn pix_in_bounds(w: int, h: int, x: int, y: int) -> bool {
    0 <= x < w && 0 <= y < h
}

/// Pixel `(x, y)` of buffer `fb` holds color `c`.
pub open spec fn pixel_is(fb: Seq<u8>, w: int, x: int, y: int, c: Color) -> bool {
    &&& fb[pix_off(w, x, y) + 0] == c[0]
    &&& fb[pix_off(w, x, y) + 1] == c[1]
    &&& fb[pix_off(w, x, y) + 2] == c[2]
    &&& fb[pix_off(w, x, y) + 3] == c[3]
}

/// Pixel `(x, y)` holds the same bytes in `fb2` as in `fb1`.
pub open spec fn pixel_unchanged(fb1: Seq<u8>, fb2: Seq<u8>, w: int, x: int, y: int) -> bool {
    &&& fb2[pix_off(w, x, y) + 0] == fb1[pix_off(w, x, y) + 0]
    &&& fb2[pix_off(w, x, y) + 1] == fb1[pix_off(w, x, y) + 1]
    &&& fb2[pix_off(w, x, y) + 2] == fb1[pix_off(w, x, y) + 2]
    &&& fb2[pix_off(w, x, y) + 3] == fb1[pix_off(w, x, y) + 3]
}

/// Distinct in-bounds pixels occupy disjoint byte ranges.
proof fn lemma_pix_off_distinct(w: int, h: int, x1: int, y1: int, x2: int, y2: int)
    requires
        pix_in_bounds(w, h, x1, y1),
        pix_in_bounds(w, h, x2, y2),
        !(x1 == x2 && y1 == y2),
    ensures
        y1 * w + x1 != y2 * w + x2,
{
    if y1 < y2 {
        assert(y1 * w + x1 < y2 * w + x2) by (nonlinear_arith)
            requires
                0 <= x1 < w,
                0 <= x2,
                y1 < y2,
        ;
    } else if y2 < y1 {
        assert(y2 * w + x2 < y1 * w + x1) by (nonlinear_arith)
            requires
                0 <= x2 < w,
                0 <= x1,
                y2 < y1,
        ;
    }
}

/// An in-bounds pixel's byte range lies inside a `w * h * 4` buffer.
pub(crate) proof fn lemma_pix_off_in_range(w: int, h: int, x: int, y: int)
    requires
        pix_in_bounds(w, h, x, y),
    ensures
        0 <= pix_off(w, x, y),
        pix_off(w, x, y) + 4 <= w * h * 4,
{
    assert(0 <= y * w + x && (y * w + x) + 1 <= w * h) by (nonlinear_arith)
        requires
            0 <= x < w,
            0 <= y < h,
    ;
    assert(pix_off(w, x, y) + 4 <= w * h * 4) by (nonlinear_arith)
        requires
            (y * w + x) + 1 <= w * h,
            pix_off(w, x, y) == (y * w + x) * 4,
    ;
}

/// One Bresenham step of the x coordinate.
pub open spec fn line_step_x(x: int, dx: int, dy: int, sx: int, err: int) -> int {
    if dy <= 2 * err {
        x + sx
    } else {
        x
    }
}

/// One Bresenham step of the y coordinate.
pub open spec fn line_step_y(y: int, dx: int, dy: int, sy: int, err: int) -> int {
    if 2 * err <= dx {
        y + sy
    } else {
        y
    }
}

/// One Bresenham step of the error accumulator.
pub open spec fn line_step_err(dx: int, dy: int, err: int) -> int {
    err + (if dy <= 2 * err {
        dy
    } else {
        0
    }) + (if 2 * err <= dx {
        dx
    } else {
        0
    })
}

/// The sample points visited by Bresenham error accumulation from `(x, y)`
/// until `(x1, y1)` is reached or `steps` iterations have run, the end point
/// excluded.
pub open spec fn line_trace(
    x: int,
    y: int,
    x1: int,
    y1: int,
    dx: int,
    dy: int,
    sx: int,
    sy: int,
    err: int,
    steps: nat,
) -> Seq<(int, int)>
    decreases steps,
{
    if steps == 0 || (x == x1 && y == y1) {
        Seq::empty()
    } else {
        seq![(x, y)] + line_trace(
            line_step_x(x, dx, dy, sx, err),
            line_step_y(y, dx, dy, sy, err),
            x1,
            y1,
            dx,
            dy,
            sx,
            sy,
            line_step_err(dx, dy, err),
            (steps - 1) as nat,
        )
    }
}

/// The sample points of the segment from `p0` towards `p1`: the Bresenham
/// trace starting at `p0` with the usual initial error `dx + dy`, capped at
/// `dx - dy` steps (one step moves at least one coordinate, so the cap is
/// only reached when the end point is).
pub open spec fn line_points(p0: (int, int), p1: (int, int)) -> Seq<(int, int)> {
    let dx = if p1.0 >= p0.0 {
        p1.0 - p0.0
    } else {
        p0.0 - p1.0
    };
    let dy = if p1.1 >= p0.1 {
        p0.1 - p1.1
    } else {
        p1.1 - p0.1
    };
    let sx: int = if p0.0 < p1.0 {
        1
    } else {
        -1
    };
    let sy: int = if p0.1 < p1.1 {
        1
    } else {
        -1
    };
    line_trace(p0.0, p0.1, p1.0, p1.1, dx, dy, sx, sy, dx + dy, (dx - dy) as nat)
}

/// On a horizontal segment the Bresenham trace is exactly the pixel run
/// `[x0, x1)` on row `y`.
proof fn lemma_trace_horizontal(x: int, x1: int, y: int, dx: int)
    requires
        x <= x1,
        dx > 0,
    ensures
        line_trace(x, y, x1, y, dx, 0, 1, -1, dx, (x1 - x) as nat) =~= Seq::new(
            (x1 - x) as nat,
            |i: int| (x + i, y),
        ),
    decreases x1 - x,
{
    if x < x1 {
        lemma_trace_horizontal(x + 1, x1, y, dx);
        assert(line_trace(x, y, x1, y, dx, 0, 1, -1, dx, (x1 - x) as nat) =~= seq![(x, y)]
            + line_trace(x + 1, y, x1, y, dx, 0, 1, -1, dx, (x1 - x - 1) as nat));
    }
}

/// Membership on a horizontal segment: a sample point lies on
/// `line_points((x0, y), (x1, y))` exactly when it sits on row `y` in the
/// half-open run `[x0, x1)`.
pub proof fn lemma_line_points_horizontal(x0: int, x1: int, y: int, px: int, py: int)
    requires
        x0 <= x1,
    ensures
        line_points((x0, y), (x1, y)).contains((px, py)) <==> (py == y && x0 <= px < x1),
{
    if x0 == x1 {
        assert(line_points((x0, y), (x1, y)).len() == 0);
    } else {
        lemma_trace_horizontal(x0, x1, y, x1 - x0);
        let s = Seq::new((x1 - x0) as nat, |i: int| (x0 + i, y));
        assert(line_points((x0, y), (x1, y)) =~= s);
        if py == y && x0 <= px < x1 {
            assert(s[px - x0] == (px, py));
            assert(s.contains((px, py)));
        }
        if s.contains((px, py)) {
            let i = choose|i: int| 0 <= i < s.len() && s[i] == (px, py);
            assert(s[i] == (x0 + i, y));
        }
    }
}

/// On a vertical segment the Bresenham trace is exactly the pixel run
/// `[y0, y1)` on column `x`.
proof fn lemma_trace_vertical(y: int, y1: int, x: int, dy: int)
    requires
        y <= y1,
        dy < 0,
    ensures
        line_trace(x, y, x, y1, 0, dy, -1, 1, dy, (y1 - y) as nat) =~= Seq::new(
            (y1 - y) as nat,
            |i: int| (x, y + i),
        ),
    decreases y1 - y,
{
    if y < y1 {
        lemma_trace_vertical(y + 1, y1, x, dy);
        assert(line_trace(x, y, x, y1, 0, dy, -1, 1, dy, (y1 - y) as nat) =~= seq![(x, y)]
            + line_trace(x, y + 1, x, y1, 0, dy, -1, 1, dy, (y1 - y - 1) as nat));
    }
}

/// Membership on a vertical segment: a sample point lies on
/// `line_points((x, y0), (x, y1))` exactly when it sits on column `x` in the
/// half-open run `[y0, y1)`.
pub proof fn lemma_line_points_vertical(y0: int, y1: int, x: int, px: int, py: int)
    requires
        y0 <= y1,
    ensures
        line_points((x, y0), (x, y1)).contains((px, py)) <==> (px == x && y0 <= py < y1),
{
    if y0 == y1 {
        assert(line_points((x, y0), (x, y1)).len() == 0);
    } else {
        lemma_trace_vertical(y0, y1, x, y0 - y1);
        let s = Seq::new((y1 - y0) as nat, |i: int| (x, y0 + i));
        assert(line_points((x, y0), (x, y1)) =~= s);
        if px == x && y0 <= py < y1 {
            assert(s[py - y0] == (px, py));
            assert(s.contains((px, py)));
        }
        if s.contains((px, py)) {
            let i = choose|i: int| 0 <= i < s.len() && s[i] == (px, py);
            assert(s[i] == (x, y0 + i));
        }
    }
}

/// Whether destination pixel `(px, py)` receives a texture pixel when the
/// sub-rectangle `src` of a `tw` by `th` texture is copied to `dest`: the
/// pixel lies in the destination box and its source sample lies inside the
/// texture.
pub open spec fn blit_covers(tw: int, th: int, src: Rect, dest: Vec2, px: int, py: int) -> bool {
    &&& dest.x <= px < dest.x + src.w
    &&& dest.y <= py < dest.y + src.h
    &&& 0 <= src.x + (px - dest.x) < tw
    &&& 0 <= src.y + (py - dest.y) < th
}

/// Destination pixel `(px, py)` of `fb` holds the bytes of texture pixel
/// `(tx, ty)`.
pub open spec fn pixel_copied(
    fb: Seq<u8>,
    w: int,
    px: int,
    py: int,
    tp: Seq<u8>,
    tw: int,
    tx: int,
    ty: int,
) -> bool {
    &&& fb[pix_off(w, px, py) + 0] == tp[pix_off(tw, tx, ty) + 0]
    &&& fb[pix_off(w, px, py) + 1] == tp[pix_off(tw, tx, ty) + 1]
    &&& fb[pix_off(w, px, py) + 2] == tp[pix_off(tw, tx, ty) + 2]
    &&& fb[pix_off(w, px, py) + 3] == tp[pix_off(tw, tx, ty) + 3]
}

/// The sample points of a rectangle outline: its top and bottom rows over
/// `[r.x, r.x + r.w)` and its left and right columns over `[r.y, r.y + r.h)`.
pub open spec fn on_rect_outline(r: Rect, px: int, py: int) -> bool {
    ||| ((py == r.y || py == r.y + r.h) && r.x <= px < r.x + r.w)
    ||| ((px == r.x || px == r.x + r.w) && r.y <= py < r.y + r.h)
}

/// The sample point `(px, py)` lies strictly inside the disk of radius `r`
/// around `(cx, cy)`.
pub open spec fn in_circle(cx: int, cy: int, r: int, px: int, py: int) -> bool {
    (px - cx) * (px - cx) + (py - cy) * (py - cy) < r * r
}

/// A point of the disk lies strictly inside the circumscribed box.
proof fn lemma_in_circle_range(cx: int, cy: int, r: int, px: int, py: int)
    requires
        r >= 0,
        in_circle(cx, cy, r, px, py),
    ensures
        cx - r < px < cx + r,
        cy - r < py < cy + r,
{
    assert(cx - r < px < cx + r && cy - r < py < cy + r) by (nonlinear_arith)
        requires
            r >= 0,
            (px - cx) * (px - cx) + (py - cy) * (py - cy) < r * r,
    ;
}

proof fn lemma_seq_push_contains<T>(s: Seq<T>, e: T, q: T)
    ensures
        s.push(e).contains(q) <==> (s.contains(q) || q == e),
{
    if s.push(e).contains(q) {
        let j = choose|j: int| 0 <= j < s.push(e).len() && s.push(e)[j] == q;
        if j < s.len() {
            assert(s.contains(q));
        }
    }
    if s.contains(q) {
        let j = choose|j: int| 0 <= j < s.len() && s[j] == q;
        assert(s.push(e)[j] == q);
    }
    assert(s.push(e)[s.len() as int] == e);
}

/// A framebuffer wrapper: owns the byte buffer for the duration of one frame
/// and exposes clipped drawing primitives. The external presentation layer
/// takes the buffer back with [`Screen::into_buffer`].
pub struct Screen {
    buf: Vec<u8>,
    width: usize,
    height: usize,
}

impl Screen {
    /// The buffer is exactly `width * height * 4` bytes, and each dimension
    /// fits the `i32` coordinate space of the drawing interface.
    pub closed spec fn wf(self) -> bool {
        &&& self.buf@.len() == self.width * self.height * 4
        &&& self.width <= i32::MAX
        &&& self.height <= i32::MAX
    }

    /// The buffer length is the pixel count times four.
    pub proof fn lemma_wf_len(self)
        requires
            self.wf(),
        ensures
            self.fb().len() == self.spec_width() * self.spec_height() * 4,
            self.spec_width() <= i32::MAX,
            self.spec_height() <= i32::MAX,
    {
    }

    pub closed spec fn spec_width(self) -> int {
        self.width as int
    }

    pub closed spec fn spec_height(self) -> int {
        self.height as int
    }

    /// The current buffer contents.
    pub closed spec fn fb(self) -> Seq<u8> {
        self.buf@
    }

    /// The screen keeps its dimensions (and hence its buffer length).
    pub open spec fn same_dims(self, other: Screen) -> bool {
        &&& other.spec_width() == self.spec_width()
        &&& other.spec_height() == self.spec_height()
        &&& other.fb().len() == self.fb().len()
    }

    pub fn width(&self) -> (w: usize)
        ensures
            w == self.spec_width(),
    {
        self.width
    }

    pub fn height(&self) -> (h: usize)
        ensures
            h == self.spec_height(),
    {
        self.height
    }

    /// Wraps a caller-owned pixel buffer. `depth` must be 4 (RGBA8888) and
    /// the buffer must hold exactly `width * height * depth` bytes.
    pub fn wrap(buffer: Vec<u8>, width: usize, height: usize, depth: usize) -> (s: Screen)
        requires
            depth == 4,
            buffer@.len() == width * height * 4,
            width <= i32::MAX,
            height <= i32::MAX,
        ensures
            s.wf(),
            s.spec_width() == width,
            s.spec_height() == height,
            s.fb() == buffer@,
    {
        Screen { buf: buffer, width, height }
    }

    /// Hands the buffer back to the caller, ending the frame.
    pub fn into_buffer(self) -> (buffer: Vec<u8>)
        ensures
            buffer@ == self.fb(),
    {
        self.buf
    }

    /// Writes color `c` at `(x, y)` if that sample point is in bounds;
    /// otherwise leaves the buffer untouched.
    fn set_pixel(&mut self, x: i64, y: i64, c: Color)
        requires
            old(self).wf(),
        ensures
            final(self).wf(),
            old(self).same_dims(*final(self)),
            pix_in_bounds(old(self).spec_width(), old(self).spec_height(), x as int, y as int)
                ==> pixel_is(
                final(self).fb(),
                old(self).spec_width(),
                x as int,
                y as int,
                c,
            ),
            forall|qx: int, qy: int|
                pix_in_bounds(old(self).spec_width(), old(self).spec_height(), qx, qy) && !(qx
                    == x as int && qy == y as int) ==> pixel_unchanged(
                    old(self).fb(),
                    final(self).fb(),
                    old(self).spec_width(),
                    qx,
                    qy,
                ),
    {
        if 0 <= x && x < self.width as i64 && 0 <= y && y < self.height as i64 {
            let w = self.width;
            let h = self.height;
            let buf_len = self.buf.len();
            proof {
                lemma_pix_off_in_range(w as int, h as int, x as int, y as int);
                assert(((y as int) * (w as int) + (x as int)) * 4 + 4 <= (w as int) * (h as int)
                    * 4);
            }
            let base: usize = ((y as usize) * w + (x as usize)) * 4;
            self.buf[base] = c[0];
            self.buf[base + 1] = c[1];
            self.buf[base + 2] = c[2];
            self.buf[base + 3] = c[3];
            proof {
                assert forall|qx: int, qy: int|
                    pix_in_bounds(w as int, h as int, qx, qy) && !(qx == x as int && qy
                        == y as int) implies pixel_unchanged(
                    old(self).fb(),
                    self.fb(),
                    w as int,
                    qx,
                    qy,
                ) by {
                    lemma_pix_off_distinct(w as int, h as int, qx, qy, x as int, y as int);
                    lemma_pix_off_in_range(w as int, h as int, qx, qy);
                }
            }
        }
    }

    /// Rasterizes the segment from `p0` towards `p1` (Bresenham), painting
    /// exactly the sample points of [`line_points`] that lie in bounds; the
    /// end point `p1` itself is not painted. Out-of-bounds sample points are
    /// skipped and every other pixel keeps its bytes.
    pub fn draw_line(&mut self, p0: (i32, i32), p1: (i32, i32), col: Color)
        requires
            old(self).wf(),
        ensures
            final(self).wf(),
            old(self).same_dims(*final(self)),
            forall|px: int, py: int|
                pix_in_bounds(old(self).spec_width(), old(self).spec_height(), px, py) ==> {
                    &&& line_points((p0.0 as int, p0.1 as int), (p1.0 as int, p1.1 as int)).contains(
                        (px, py),
                    ) ==> pixel_is(final(self).fb(), old(self).spec_width(), px, py, col)
                    &&& !line_points(
                        (p0.0 as int, p0.1 as int),
                        (p1.0 as int, p1.1 as int),
                    ).contains((px, py)) ==> pixel_unchanged(
                        old(self).fb(),
                        final(self).fb(),
                        old(self).spec_width(),
                        px,
                        py,
                    )
                },
    {
        self.line_i64(p0.0 as i64, p0.1 as i64, p1.0 as i64, p1.1 as i64, col);
    }

    /// [`Screen::draw_line`] over a slightly wider coordinate range, so that
    /// rectangle edges such as `x + w` need not fit an `i32`.
    pub(crate) fn line_i64(&mut self, x0: i64, y0: i64, x1: i64, y1: i64, col: Color)
        requires
            old(self).wf(),
            -0x1_0000_0000 <= x0 <= 0x1_0000_0000,
            -0x1_0000_0000 <= y0 <= 0x1_0000_0000,
            -0x1_0000_0000 <= x1 <= 0x1_0000_0000,
            -0x1_0000_0000 <= y1 <= 0x1_0000_0000,
        ensures
            final(self).wf(),
            old(self).same_dims(*final(self)),
            forall|px: int, py: int|
                pix_in_bounds(old(self).spec_width(), old(self).spec_height(), px, py) ==> {
                    &&& line_points((x0 as int, y0 as int), (x1 as int, y1 as int)).contains(
                        (px, py),
                    ) ==> pixel_is(final(self).fb(), old(self).spec_width(), px, py, col)
                    &&& !line_points((x0 as int, y0 as int), (x1 as int, y1 as int)).contains(
                        (px, py),
                    ) ==> pixel_unchanged(
                        old(self).fb(),
                        final(self).fb(),
                        old(self).spec_width(),
                        px,
                        py,
                    )
                },
    {
        let ghost w = self.spec_width();
        let ghost h = self.spec_height();
        let ghost fb0 = self.fb();
        let dx: i64 = if x1 >= x0 {
            x1 - x0
        } else {
            x0 - x1
        };
        let dy: i64 = if y1 >= y0 {
            y0 - y1
        } else {
            y1 - y0
        };
        let sx: i64 = if x0 < x1 {
            1
        } else {
            -1
        };
        let sy: i64 = if y0 < y1 {
            1
        } else {
            -1
        };
        let mut err: i64 = dx + dy;
        let mut x = x0;
        let mut y = y0;
        let mut steps: i64 = dx - dy;
        let ghost steps0 = steps as int;
        let ghost mut prefix: Seq<(int, int)> = Seq::empty();
        while (x != x1 || y != y1) && steps > 0
            invariant
                self.wf(),
                w == self.spec_width(),
                h == self.spec_height(),
                fb0.len() == self.fb().len(),
                0 <= dx <= 0x2_0000_0000,
                -0x2_0000_0000 <= dy <= 0,
                -0x1_0000_0000 <= x0 <= 0x1_0000_0000,
                -0x1_0000_0000 <= y0 <= 0x1_0000_0000,
                -0x1_0000_0000 <= x1 <= 0x1_0000_0000,
                -0x1_0000_0000 <= y1 <= 0x1_0000_0000,
                steps0 == dx - dy,
                0 <= steps <= steps0,
                2 * dy <= err <= 2 * dx,
                x0 - (steps0 - steps) <= x <= x0 + (steps0 - steps),
                y0 - (steps0 - steps) <= y <= y0 + (steps0 - steps),
                sx == 1 || sx == -1,
                sy == 1 || sy == -1,
                line_points((x0 as int, y0 as int), (x1 as int, y1 as int)) == prefix
                    + line_trace(
                    x as int,
                    y as int,
                    x1 as int,
                    y1 as int,
                    dx as int,
                    dy as int,
                    sx as int,
                    sy as int,
                    err as int,
                    steps as nat,
                ),
                forall|px: int, py: int|
                    pix_in_bounds(w, h, px, py) ==> {
                        &&& prefix.contains((px, py)) ==> pixel_is(self.fb(), w, px, py, col)
                        &&& !prefix.contains((px, py)) ==> pixel_unchanged(
                            fb0,
                            self.fb(),
                            w,
                            px,
                            py,
                        )
                    },
            decreases steps,
        {
            proof {
                assert(line_trace(
                    x as int,
                    y as int,
                    x1 as int,
                    y1 as int,
                    dx as int,
                    dy as int,
                    sx as int,
                    sy as int,
                    err as int,
                    steps as nat,
                ) == seq![(x as int, y as int)] + line_trace(
                    line_step_x(x as int, dx as int, dy as int, sx as int, err as int),
                    line_step_y(y as int, dx as int, dy as int, sy as int, err as int),
                    x1 as int,
                    y1 as int,
                    dx as int,
                    dy as int,
                    sx as int,
                    sy as int,
                    line_step_err(dx as int, dy as int, err as int),
                    (steps - 1) as nat,
                ));
            }
            self.set_pixel(x, y, col);
            proof {
                let q = (x as int, y as int);
                let prefix1 = prefix.push(q);
                assert forall|px: int, py: int| pix_in_bounds(w, h, px, py) implies {
                    &&& prefix1.contains((px, py)) ==> pixel_is(self.fb(), w, px, py, col)
                    &&& !prefix1.contains((px, py)) ==> pixel_unchanged(fb0, self.fb(), w, px, py)
                } by {
                    lemma_seq_push_contains(prefix, q, (px, py));
                }
                let tail = line_trace(
                    line_step_x(x as int, dx as int, dy as int, sx as int, err as int),
                    line_step_y(y as int, dx as int, dy as int, sy as int, err as int),
                    x1 as int,
                    y1 as int,
                    dx as int,
                    dy as int,
                    sx as int,
                    sy as int,
                    line_step_err(dx as int, dy as int, err as int),
                    (steps - 1) as nat,
                );
                assert(prefix1 + tail =~= prefix + (seq![q] + tail));
                prefix = prefix1;
            }
            let e2 = 2 * err;
            if dy <= e2 {
                err = err + dy;
                x = x + sx;
            }
            if e2 <= dx {
                err = err + dx;
                y = y + sy;
            }
            steps = steps - 1;
        }
        proof {
            assert(line_trace(
                x as int,
                y as int,
                x1 as int,
                y1 as int,
                dx as int,
                dy as int,
                sx as int,
                sy as int,
                err as int,
                steps as nat,
            ) =~= Seq::<(int, int)>::empty());
            assert(line_points((x0 as int, y0 as int), (x1 as int, y1 as int)) =~= prefix);
        }
    }

    /// Fills the axis-aligned box `[pos.0, pos.0 + size.0) x [pos.1,
    /// pos.1 + size.1)` with `col`, one horizontal line per row. A
    /// non-positive size draws nothing; out-of-bounds parts are clipped and
    /// every pixel outside the box keeps its bytes.
    pub fn filled_rect(&mut self, pos: (i32, i32), size: (i32, i32), col: Color)
        requires
            old(self).wf(),
        ensures
            final(self).wf(),
            old(self).same_dims(*final(self)),
            forall|px: int, py: int|
                pix_in_bounds(old(self).spec_width(), old(self).spec_height(), px, py) ==> {
                    &&& (pos.0 <= px < pos.0 + size.0 && pos.1 <= py < pos.1 + size.1)
                        ==> pixel_is(final(self).fb(), old(self).spec_width(), px, py, col)
                    &&& !(pos.0 <= px < pos.0 + size.0 && pos.1 <= py < pos.1 + size.1)
                        ==> pixel_unchanged(
                        old(self).fb(),
                        final(self).fb(),
                        old(self).spec_width(),
                        px,
                        py,
                    )
                },
    {
        let ghost w = self.spec_width();
        let ghost h = self.spec_height();
        let ghost fb0 = self.fb();
        let x = pos.0 as i64;
        let y = pos.1 as i64;
        let rw = size.0 as i64;
        let rh = size.1 as i64;
        if rw > 0 && rh > 0 {
            let mut row = y;
            while row < y + rh
                invariant
                    self.wf(),
                    w == self.spec_width(),
                    h == self.spec_height(),
                    fb0.len() == self.fb().len(),
                    rw > 0,
                    i32::MIN <= x <= i32::MAX,
                    i32::MIN <= y <= i32::MAX,
                    0 < rw <= i32::MAX,
                    rh <= i32::MAX,
                    y <= row <= y + rh,
                    forall|px: int, py: int|
                        pix_in_bounds(w, h, px, py) ==> {
                            &&& (x <= px < x + rw && y <= py < row) ==> pixel_is(
                                self.fb(),
                                w,
                                px,
                                py,
                                col,
                            )
                            &&& !(x <= px < x + rw && y <= py < y + rh) ==> pixel_unchanged(
                                fb0,
                                self.fb(),
                                w,
                                px,
                                py,
                            )
                        },
                decreases y + rh - row,
            {
                let ghost mid = self.fb();
                self.line_i64(x, row, x + rw, row, col);
                proof {
                    assert forall|px: int, py: int| pix_in_bounds(w, h, px, py) implies {
                        &&& (x <= px < x + rw && y <= py < row + 1) ==> pixel_is(
                            self.fb(),
                            w,
                            px,
                            py,
                            col,
                        )
                        &&& !(x <= px < x + rw && y <= py < y + rh) ==> pixel_unchanged(
                            fb0,
                            self.fb(),
                            w,
                            px,
                            py,
                        )
                    } by {
                        lemma_line_points_horizontal(
                            x as int,
                            x as int + rw as int,
                            row as int,
                            px,
                            py,
                        );
                    }
                }
                row = row + 1;
            }
        }
    }

    /// Fills the box described by `r` with `col`; see
    /// [`Screen::filled_rect`].
    pub fn rect(&mut self, r: Rect, col: Color)
        requires
            old(self).wf(),
        ensures
            final(self).wf(),
            old(self).same_dims(*final(self)),
            forall|px: int, py: int|
                pix_in_bounds(old(self).spec_width(), old(self).spec_height(), px, py) ==> {
                    &&& (r.x <= px < r.x + r.w && r.y <= py < r.y + r.h) ==> pixel_is(
                        final(self).fb(),
                        old(self).spec_width(),
                        px,
                        py,
                        col,
                    )
                    &&& !(r.x <= px < r.x + r.w && r.y <= py < r.y + r.h) ==> pixel_unchanged(
                        old(self).fb(),
                        final(self).fb(),
                        old(self).spec_width(),
                        px,
                        py,
                    )
                },
    {
        self.filled_rect((r.x, r.y), (r.w, r.h), col);
    }

    /// Outlines the box described by `r` with `col`: its top and bottom rows
    /// `[r.x, r.x + r.w)` and its left and right columns `[r.y, r.y + r.h)`,
    /// drawn as four lines. Out-of-bounds parts are clipped; every other
    /// pixel keeps its bytes.
    pub fn rect_lines(&mut self, r: Rect, col: Color)
        requires
            old(self).wf(),
            r.wf(),
        ensures
            final(self).wf(),
            old(self).same_dims(*final(self)),
            forall|px: int, py: int|
                pix_in_bounds(old(self).spec_width(), old(self).spec_height(), px, py) ==> {
                    &&& on_rect_outline(r, px, py) ==> pixel_is(
                        final(self).fb(),
                        old(self).spec_width(),
                        px,
                        py,
                        col,
                    )
                    &&& !on_rect_outline(r, px, py) ==> pixel_unchanged(
                        old(self).fb(),
                        final(self).fb(),
                        old(self).spec_width(),
                        px,
                        py,
                    )
                },
    {
        let ghost w = self.spec_width();
        let ghost h = self.spec_height();
        let ghost fb0 = self.fb();
        let x = r.x as i64;
        let y = r.y as i64;
        let rw = r.w as i64;
        let rh = r.h as i64;
        self.line_i64(x, y, x + rw, y, col);
        proof {
            assert forall|px: int, py: int| pix_in_bounds(w, h, px, py) implies {
                &&& (py == r.y && r.x <= px < r.x + r.w) ==> pixel_is(self.fb(), w, px, py, col)
                &&& !(py == r.y && r.x <= px < r.x + r.w) ==> pixel_unchanged(
                    fb0,
                    self.fb(),
                    w,
                    px,
                    py,
                )
            } by {
                lemma_line_points_horizontal(x as int, x as int + rw as int, y as int, px, py);
            }
        }
        let ghost fb1 = self.fb();
        self.line_i64(x, y + rh, x + rw, y + rh, col);
        proof {
            assert forall|px: int, py: int| pix_in_bounds(w, h, px, py) implies {
                &&& ((py == r.y || py == r.y + r.h) && r.x <= px < r.x + r.w) ==> pixel_is(
                    self.fb(),
                    w,
                    px,
                    py,
                    col,
                )
                &&& !((py == r.y || py == r.y + r.h) && r.x <= px < r.x + r.w)
                    ==> pixel_unchanged(fb0, self.fb(), w, px, py)
            } by {
                lemma_line_points_horizontal(
                    x as int,
                    x as int + rw as int,
                    y as int + rh as int,
                    px,
                    py,
                );
            }
        }
        let ghost fb2 = self.fb();
        self.line_i64(x, y, x, y + rh, col);
        proof {
            assert forall|px: int, py: int| pix_in_bounds(w, h, px, py) implies {
                &&& (((py == r.y || py == r.y + r.h) && r.x <= px < r.x + r.w) || (px == r.x && r.y
                    <= py < r.y + r.h)) ==> pixel_is(self.fb(), w, px, py, col)
                &&& !(((py == r.y || py == r.y + r.h) && r.x <= px < r.x + r.w) || (px == r.x
                    && r.y <= py < r.y + r.h)) ==> pixel_unchanged(fb0, self.fb(), w, px, py)
            } by {
                lemma_line_points_vertical(y as int, y as int + rh as int, x as int, px, py);
            }
        }
        let ghost fb3 = self.fb();
        self.line_i64(x + rw, y, x + rw, y + rh, col);
        proof {
            assert forall|px: int, py: int| pix_in_bounds(w, h, px, py) implies {
                &&& on_rect_outline(r, px, py) ==> pixel_is(self.fb(), w, px, py, col)
                &&& !on_rect_outline(r, px, py) ==> pixel_unchanged(fb0, self.fb(), w, px, py)
            } by {
                lemma_line_points_vertical(
                    y as int,
                    y as int + rh as int,
                    x as int + rw as int,
                    px,
                    py,
                );
            }
        }
    }

    /// Fills the disk of Euclidean radius `radius` around `center` with
    /// `col`: exactly the sample points strictly closer than `radius` to the
    /// center. Out-of-bounds parts are clipped; every pixel outside the disk
    /// keeps its bytes.
    pub fn filled_circle(&mut self, center: (i32, i32), radius: u64, col: Color)
        requires
            old(self).wf(),
            radius <= i32::MAX as u64,
        ensures
            final(self).wf(),
            old(self).same_dims(*final(self)),
            forall|px: int, py: int|
                pix_in_bounds(old(self).spec_width(), old(self).spec_height(), px, py) ==> {
                    &&& in_circle(center.0 as int, center.1 as int, radius as int, px, py)
                        ==> pixel_is(final(self).fb(), old(self).spec_width(), px, py, col)
                    &&& !in_circle(center.0 as int, center.1 as int, radius as int, px, py)
                        ==> pixel_unchanged(
                        old(self).fb(),
                        final(self).fb(),
                        old(self).spec_width(),
                        px,
                        py,
                    )
                },
    {
        let ghost w = self.spec_width();
        let ghost h = self.spec_height();
        let ghost fb0 = self.fb();
        let cx = center.0 as i64;
        let cy = center.1 as i64;
        let rr = radius as i64;
        let mut i = cx - rr;
        proof {
            assert forall|px: int, py: int|
                in_circle(cx as int, cy as int, rr as int, px, py) implies cx - rr < px < cx + rr
                && cy - rr < py < cy + rr by {
                lemma_in_circle_range(cx as int, cy as int, rr as int, px, py);
            }
        }
        while i < cx + rr
            invariant
                self.wf(),
                w == self.spec_width(),
                h == self.spec_height(),
                fb0.len() == self.fb().len(),
                i32::MIN <= cx <= i32::MAX,
                i32::MIN <= cy <= i32::MAX,
                0 <= rr <= i32::MAX,
                cx - rr <= i <= cx + rr,
                forall|px: int, py: int|
                    pix_in_bounds(w, h, px, py) ==> {
                        &&& (in_circle(cx as int, cy as int, rr as int, px, py) && px < i)
                            ==> pixel_is(self.fb(), w, px, py, col)
                        &&& !in_circle(cx as int, cy as int, rr as int, px, py)
                            ==> pixel_unchanged(fb0, self.fb(), w, px, py)
                    },
            decreases cx + rr - i,
        {
            let mut j = cy - rr;
            proof {
                assert forall|px: int, py: int|
                    in_circle(cx as int, cy as int, rr as int, px, py) implies cy - rr < py < cy
                    + rr by {
                    lemma_in_circle_range(cx as int, cy as int, rr as int, px, py);
                }
            }
            while j < cy + rr
                invariant
                    self.wf(),
                    w == self.spec_width(),
                    h == self.spec_height(),
                    fb0.len() == self.fb().len(),
                    i32::MIN <= cx <= i32::MAX,
                    i32::MIN <= cy <= i32::MAX,
                    0 <= rr <= i32::MAX,
                    cx - rr <= i < cx + rr,
                    cy - rr <= j <= cy + rr,
                    forall|px: int, py: int|
                        pix_in_bounds(w, h, px, py) ==> {
                            &&& (in_circle(cx as int, cy as int, rr as int, px, py) && (px < i || (
                            px == i && py < j))) ==> pixel_is(self.fb(), w, px, py, col)
                            &&& !in_circle(cx as int, cy as int, rr as int, px, py)
                                ==> pixel_unchanged(fb0, self.fb(), w, px, py)
                        },
                decreases cy + rr - j,
            {
                let di = i - cx;
                let dj = j - cy;
                proof {
                    assert(0 <= di * di <= 0x3fff_ffff_0000_0001) by (nonlinear_arith)
                        requires
                            -0x7fff_ffff <= di <= 0x7fff_ffff,
                    ;
                    assert(0 <= dj * dj <= 0x3fff_ffff_0000_0001) by (nonlinear_arith)
                        requires
                            -0x7fff_ffff <= dj <= 0x7fff_ffff,
                    ;
                    assert(0 <= rr * rr <= 0x3fff_ffff_0000_0001) by (nonlinear_arith)
                        requires
                            0 <= rr <= 0x7fff_ffff,
                    ;
                }
                if di * di + dj * dj < rr * rr {
                    self.set_pixel(i, j, col);
                }
                j = j + 1;
            }
            proof {
                assert forall|px: int, py: int|
                    pix_in_bounds(w, h, px, py) && in_circle(cx as int, cy as int, rr as int, px, py)
                        && px < i + 1 implies pixel_is(self.fb(), w, px, py, col) by {
                    lemma_in_circle_range(cx as int, cy as int, rr as int, px, py);
                }
            }
            i = i + 1;
        }
        proof {
            assert forall|px: int, py: int|
                pix_in_bounds(w, h, px, py) && in_circle(cx as int, cy as int, rr as int, px, py)
                    implies pixel_is(self.fb(), w, px, py, col) by {
                lemma_in_circle_range(cx as int, cy as int, rr as int, px, py);
            }
        }
    }

    /// Copies the sub-rectangle `src` of `tex` to position `dest`: a
    /// straight per-pixel overwrite, no blending. Both the source range (to
    /// the texture) and the destination range (to the screen) are clipped;
    /// every destination pixel outside the copied region keeps its bytes.
    pub fn bitblt(&mut self, tex: &Texture, src: Rect, dest: Vec2)
        requires
            old(self).wf(),
            tex.wf(),
        ensures
            final(self).wf(),
            old(self).same_dims(*final(self)),
            forall|px: int, py: int|
                pix_in_bounds(old(self).spec_width(), old(self).spec_height(), px, py) ==> {
                    &&& blit_covers(tex.spec_width(), tex.spec_height(), src, dest, px, py)
                        ==> pixel_copied(
                        final(self).fb(),
                        old(self).spec_width(),
                        px,
                        py,
                        tex.px(),
                        tex.spec_width(),
                        src.x + (px - dest.x),
                        src.y + (py - dest.y),
                    )
                    &&& !blit_covers(tex.spec_width(), tex.spec_height(), src, dest, px, py)
                        ==> pixel_unchanged(
                        old(self).fb(),
                        final(self).fb(),
                        old(self).spec_width(),
                        px,
                        py,
                    )
                },
    {
        let ghost w = self.spec_width();
        let ghost h = self.spec_height();
        let ghost fb0 = self.fb();
        proof {
            tex.lemma_wf_dims();
        }
        let sx = src.x as i64;
        let sy = src.y as i64;
        let sw = src.w as i64;
        let sh = src.h as i64;
        let dx = dest.x as i64;
        let dy = dest.y as i64;
        let tw = tex.width() as i64;
        let th = tex.height() as i64;
        if sw > 0 && sh > 0 {
            let mut v: i64 = 0;
            while v < sh
                invariant
                    self.wf(),
                    w == self.spec_width(),
                    h == self.spec_height(),
                    fb0.len() == self.fb().len(),
                    tex.wf(),
                    sx == src.x as int,
                    sy == src.y as int,
                    sw == src.w as int,
                    sh == src.h as int,
                    dx == dest.x as int,
                    dy == dest.y as int,
                    tw == tex.spec_width(),
                    th == tex.spec_height(),
                    0 < sw <= i32::MAX,
                    0 < sh <= i32::MAX,
                    0 <= v <= sh,
                    forall|px: int, py: int|
                        pix_in_bounds(w, h, px, py) ==> {
                            &&& (blit_covers(tw as int, th as int, src, dest, px, py) && py < dy
                                + v) ==> pixel_copied(
                                self.fb(),
                                w,
                                px,
                                py,
                                tex.px(),
                                tw as int,
                                src.x + (px - dest.x),
                                src.y + (py - dest.y),
                            )
                            &&& !blit_covers(tw as int, th as int, src, dest, px, py)
                                ==> pixel_unchanged(fb0, self.fb(), w, px, py)
                        },
                decreases sh - v,
            {
                let mut u: i64 = 0;
                while u < sw
                    invariant
                        self.wf(),
                        w == self.spec_width(),
                        h == self.spec_height(),
                        fb0.len() == self.fb().len(),
                        tex.wf(),
                        sx == src.x as int,
                        sy == src.y as int,
                        sw == src.w as int,
                        sh == src.h as int,
                        dx == dest.x as int,
                        dy == dest.y as int,
                        tw == tex.spec_width(),
                        th == tex.spec_height(),
                        0 < sw <= i32::MAX,
                        0 < sh <= i32::MAX,
                        0 <= v < sh,
                        0 <= u <= sw,
                        forall|px: int, py: int|
                            pix_in_bounds(w, h, px, py) ==> {
                                &&& (blit_covers(tw as int, th as int, src, dest, px, py) && (py
                                    < dy + v || (py == dy + v && px < dx + u))) ==> pixel_copied(
                                    self.fb(),
                                    w,
                                    px,
                                    py,
                                    tex.px(),
                                    tw as int,
                                    src.x + (px - dest.x),
                                    src.y + (py - dest.y),
                                )
                                &&& !blit_covers(tw as int, th as int, src, dest, px, py)
                                    ==> pixel_unchanged(fb0, self.fb(), w, px, py)
                            },
                    decreases sw - u,
                {
                    let sxx = sx + u;
                    let syy = sy + v;
                    if 0 <= sxx && sxx < tw && 0 <= syy && syy < th {
                        let c = tex.get_pixel(sxx, syy);
                        self.set_pixel(dx + u, dy + v, c);
                    }
                    u = u + 1;
                }
                v = v + 1;
            }
        }
    }

    /// Overwrites every pixel of the buffer with `color`.
    pub fn clear(&mut self, color: Color)
        requires
            old(self).wf(),
        ensures
            final(self).wf(),
            old(self).same_dims(*final(self)),
            forall|x: int, y: int|
                pix_in_bounds(old(self).spec_width(), old(self).spec_height(), x, y) ==> pixel_is(
                    final(self).fb(),
                    old(self).spec_width(),
                    x,
                    y,
                    color,
                ),
    {
        let w = self.width;
        let h = self.height;
        let mut y: usize = 0;
        while y < h
            invariant
                self.wf(),
                old(self).same_dims(*self),
                w == self.spec_width(),
                h == self.spec_height(),
                y <= h,
                forall|qx: int, qy: int|
                    pix_in_bounds(w as int, h as int, qx, qy) && qy < y ==> pixel_is(
                        self.fb(),
                        w as int,
                        qx,
                        qy,
                        color,
                    ),
            decreases h - y,
        {
            let mut x: usize = 0;
            while x < w
                invariant
                    self.wf(),
                    old(self).same_dims(*self),
                    w == self.spec_width(),
                    h == self.spec_height(),
                    y < h,
                    x <= w,
                    forall|qx: int, qy: int|
                        pix_in_bounds(w as int, h as int, qx, qy) && (qy < y || (qy == y && qx
                            < x)) ==> pixel_is(self.fb(), w as int, qx, qy, color),
                decreases w - x,
            {
                self.set_pixel(x as i64, y as i64, color);
                x = x + 1;
            }
            y = y + 1;
        }
    }
}

} // verus!
