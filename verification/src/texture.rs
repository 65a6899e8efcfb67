//! Decoded bitmap images.
//!
//! A [`Texture`] owns an RGBA8888 pixel buffer together with its dimensions.
//! It is created once from already-decoded pixels (decoding an image file is
//! the caller's concern), is immutable afterwards, and is shared by
//! reference-counted handle among sprites and fonts.

use std::rc::Rc;

use vstd::prelude::*;

use crate::objects::Color;
use crate::screen::{pix_in_bounds, pix_off};

verus! {

/// Clones a reference-counted handle on shared immutable data (a texture,
/// an animation's frame table).
///
/// Relies on `alloc::rc::Rc::clone`: the clone is a handle on the very same
/// allocation, so it carries the same value.
#[verifier::external_body]
pub(crate) fn clone_handle<T>(handle: &Rc<T>) -> (r: Rc<T>)
    ensures
        r == *handle,
{
    Rc::clone(handle)
}

/// An immutable RGBA8888 image: a pixel buffer plus its width and height.
pub struct Texture {
    pixels: Vec<u8>,
    width: usize,
    height: usize,
}

impl Texture {
    /// The buffer is exactly `width * height * 4` bytes and each dimension
    /// fits the `i32` coordinate space of the drawing interface.
    pub closed spec fn wf(&self) -> bool {
        &&& self.pixels@.len() == self.width * self.height * 4
        &&& self.width <= i32::MAX
        &&& self.height <= i32::MAX
    }

    /// The raw pixel bytes.
    pub closed spec fn px(&self) -> Seq<u8> {
        self.pixels@
    }

    /// The buffer length is the pixel count times four, and the dimensions
    /// fit the drawing interface.
    pub proof fn lemma_wf_dims(&self)
        requires
            self.wf(),
        ensures
            self.px().len() == self.spec_width() * self.spec_height() * 4,
            0 <= self.spec_width() <= i32::MAX,
            0 <= self.spec_height() <= i32::MAX,
    {
    }

    pub closed spec fn spec_width(&self) -> int {
        self.width as int
    }

    pub closed spec fn spec_height(&self) -> int {
        self.height as int
    }

    pub fn width(&self) -> (w: usize)
        ensures
            w == self.spec_width(),
    {
        self.width
    }

    pub fn height(&self) -> (h: usize)
        ensures
            h == self.spec_height(),
    {
        self.height
    }

    /// Wraps an already-decoded RGBA8888 pixel buffer.
    pub fn new(pixels: Vec<u8>, width: usize, height: usize) -> (t: Texture)
        requires
            pixels@.len() == width * height * 4,
            width <= i32::MAX,
            height <= i32::MAX,
        ensures
            t.wf(),
            t.spec_width() == width,
            t.spec_height() == height,
            t.px() == pixels@,
    {
        Texture { pixels, width, height }
    }

    /// Reads the color of pixel `(x, y)`.
    pub fn get_pixel(&self, x: i64, y: i64) -> (c: Color)
        requires
            self.wf(),
            pix_in_bounds(self.spec_width(), self.spec_height(), x as int, y as int),
        ensures
            c[0] == self.px()[pix_off(self.spec_width(), x as int, y as int) + 0],
            c[1] == self.px()[pix_off(self.spec_width(), x as int, y as int) + 1],
            c[2] == self.px()[pix_off(self.spec_width(), x as int, y as int) + 2],
            c[3] == self.px()[pix_off(self.spec_width(), x as int, y as int) + 3],
    {
        let w = self.width;
        let h = self.height;
        let buf_len = self.pixels.len();
        proof {
            crate::screen::lemma_pix_off_in_range(w as int, h as int, x as int, y as int);
            assert(((y as int) * (w as int) + (x as int)) * 4 + 4 <= (w as int) * (h as int) * 4);
        }
        let base: usize = ((y as usize) * w + (x as usize)) * 4;
        [self.pixels[base], self.pixels[base + 1], self.pixels[base + 2], self.pixels[base + 3]]
    }
}

} // verus!
