//! Core value types: colors, 2D vectors and axis-aligned rectangles.
//!
//! All geometry is expressed in integer pixel coordinates. Rectangles store a
//! position and a size; a size component may be zero (an empty box).

use vstd::prelude::*;

use crate::screen::{in_circle, line_points, pix_in_bounds, pixel_is, pixel_unchanged, Screen, DEPTH};

verus! {

/// A 4-byte RGBA color value, copy semantics, no identity.
pub type Color = [u8; 4];

/// Fixed dimensions of the framebuffer that the free drawing functions of
/// this module operate on.
pub const WIDTH: usize = 240;

pub const HEIGHT: usize = 360;

/// A 2D vector in integer pixel coordinates.
#[derive(Copy, Clone, PartialEq, Eq, Structural, Debug)]
pub struct Vec2 {
    pub x: i32,
    pub y: i32,
}

impl Vec2 {
    pub fn new(x: i32, y: i32) -> (v: Vec2)
        ensures
            v.x == x,
            v.y == y,
    {
        Vec2 { x, y }
    }
}

/// An axis-aligned box: position of the top-left corner and a size.
#[derive(Copy, Clone, PartialEq, Eq, Structural, Debug)]
pub struct Rect {
    pub x: i32,
    pub y: i32,
    pub w: i32,
    pub h: i32,
}

impl Rect {
    /// A rectangle is well formed when its size components are non-negative;
    /// zero-size rectangles are allowed.
    pub open spec fn wf(self) -> bool {
        self.w >= 0 && self.h >= 0
    }

    pub fn new(x: i32, y: i32, w: i32, h: i32) -> (r: Rect)
        ensures
            r == (Rect { x, y, w, h }),
    {
        Rect { x, y, w, h }
    }
}

/// A rectangle that moves under simple integration: position, velocity, size.
#[derive(Copy, Clone, PartialEq, Eq, Structural, Debug)]
pub struct MovingRect {
    pub pos: Vec2,
    pub vel: Vec2,
    pub size: Vec2,
}

impl MovingRect {
    pub fn new(x: i32, y: i32, w: i32, h: i32, vel: Vec2) -> (r: MovingRect)
        ensures
            r.pos == (Vec2 { x, y }),
            r.size == (Vec2 { x: w, y: h }),
            r.vel == vel,
    {
        MovingRect { pos: Vec2 { x, y }, vel, size: Vec2 { x: w, y: h } }
    }

    /// The axis-aligned box currently occupied by this entity.
    pub fn as_rect(&self) -> (r: Rect)
        ensures
            r == (Rect { x: self.pos.x, y: self.pos.y, w: self.size.x, h: self.size.y }),
    {
        Rect { x: self.pos.x, y: self.pos.y, w: self.size.x, h: self.size.y }
    }
}

/// Paints the pixel run `[x0, x1)` of row `y` with `c` on a 240 by 360
/// framebuffer; every other pixel keeps its bytes.
pub fn hline(fb: &mut Vec<u8>, x0: usize, x1: usize, y: usize, c: Color)
    requires
        old(fb)@.len() == WIDTH * HEIGHT * 4,
        y < HEIGHT,
        x0 <= x1,
        x1 < WIDTH,
    ensures
        final(fb)@.len() == old(fb)@.len(),
        forall|px: int, py: int|
            pix_in_bounds(WIDTH as int, HEIGHT as int, px, py) ==> {
                &&& (py == y && x0 <= px < x1) ==> pixel_is(final(fb)@, WIDTH as int, px, py, c)
                &&& !(py == y && x0 <= px < x1) ==> pixel_unchanged(
                    old(fb)@,
                    final(fb)@,
                    WIDTH as int,
                    px,
                    py,
                )
            },
{
    let mut buffer: Vec<u8> = Vec::new();
    core::mem::swap(fb, &mut buffer);
    let mut screen = Screen::wrap(buffer, WIDTH, HEIGHT, DEPTH);
    screen.filled_rect((x0 as i32, y as i32), ((x1 - x0) as i32, 1), c);
    *fb = screen.into_buffer();
}

/// Rasterizes the segment from `p0` towards `p1` (the end point excluded)
/// with `col` on a 240 by 360 framebuffer: exactly the in-bounds sample
/// points of [`line_points`]; every other pixel keeps its bytes.
pub fn line(fb: &mut Vec<u8>, p0: (i32, i32), p1: (i32, i32), col: Color)
    requires
        old(fb)@.len() == WIDTH * HEIGHT * 4,
    ensures
        final(fb)@.len() == old(fb)@.len(),
        forall|px: int, py: int|
            pix_in_bounds(WIDTH as int, HEIGHT as int, px, py) ==> {
                &&& line_points((p0.0 as int, p0.1 as int), (p1.0 as int, p1.1 as int)).contains(
                    (px, py),
                ) ==> pixel_is(final(fb)@, WIDTH as int, px, py, col)
                &&& !line_points((p0.0 as int, p0.1 as int), (p1.0 as int, p1.1 as int)).contains(
                    (px, py),
                ) ==> pixel_unchanged(old(fb)@, final(fb)@, WIDTH as int, px, py)
            },
{
    let mut buffer: Vec<u8> = Vec::new();
    core::mem::swap(fb, &mut buffer);
    let mut screen = Screen::wrap(buffer, WIDTH, HEIGHT, DEPTH);
    screen.draw_line(p0, p1, col);
    *fb = screen.into_buffer();
}

/// Fills the box `[x, x + w) x [y, y + h)` with `col` on a 240 by 360
/// framebuffer, clipped to the buffer; every other pixel keeps its bytes.
pub fn filled_rect(fb: &mut Vec<u8>, pos: (i32, i32), size: (i32, i32), col: Color)
    requires
        old(fb)@.len() == WIDTH * HEIGHT * 4,
    ensures
        final(fb)@.len() == old(fb)@.len(),
        forall|px: int, py: int|
            pix_in_bounds(WIDTH as int, HEIGHT as int, px, py) ==> {
                &&& (pos.0 <= px < pos.0 + size.0 && pos.1 <= py < pos.1 + size.1) ==> pixel_is(
                    final(fb)@,
                    WIDTH as int,
                    px,
                    py,
                    col,
                )
                &&& !(pos.0 <= px < pos.0 + size.0 && pos.1 <= py < pos.1 + size.1)
                    ==> pixel_unchanged(old(fb)@, final(fb)@, WIDTH as int, px, py)
            },
{
    let mut buffer: Vec<u8> = Vec::new();
    core::mem::swap(fb, &mut buffer);
    let mut screen = Screen::wrap(buffer, WIDTH, HEIGHT, DEPTH);
    screen.filled_rect(pos, size, col);
    *fb = screen.into_buffer();
}

/// Fills the disk of radius `r` around `center` with `col` on a 240 by 360
/// framebuffer, clipped to the buffer; every other pixel keeps its bytes.
pub fn filled_circle(fb: &mut Vec<u8>, center: (i32, i32), r: u64, col: Color)
    requires
        old(fb)@.len() == WIDTH * HEIGHT * 4,
        r <= i32::MAX as u64,
    ensures
        final(fb)@.len() == old(fb)@.len(),
        forall|px: int, py: int|
            pix_in_bounds(WIDTH as int, HEIGHT as int, px, py) ==> {
                &&& in_circle(center.0 as int, center.1 as int, r as int, px, py) ==> pixel_is(
                    final(fb)@,
                    WIDTH as int,
                    px,
                    py,
                    col,
                )
                &&& !in_circle(center.0 as int, center.1 as int, r as int, px, py)
                    ==> pixel_unchanged(old(fb)@, final(fb)@, WIDTH as int, px, py)
            },
{
    let mut buffer: Vec<u8> = Vec::new();
    core::mem::swap(fb, &mut buffer);
    let mut screen = Screen::wrap(buffer, WIDTH, HEIGHT, DEPTH);
    screen.filled_circle(center, r, col);
    *fb = screen.into_buffer();
}

} // verus!
