//! The CPU-side color buffer that the simulation paints and a renderer
//! samples: `width * height` RGBA8 pixels in one flat byte vector,
//! row-major with the top row first.

use vstd::prelude::*;

verus! {

/// The view of a [`CpuTexture`]: its dimensions and the raw bytes.
#[verifier::ext_equal]
pub ghost struct TextureView {
    pub width: nat,
    pub height: nat,
    pub data: Seq<u8>,
}

/// Writing one pixel of a flat RGBA byte buffer of row width `w`:
/// the four bytes of pixel `(x, y)` are replaced by `r, g, b, a`.
pub open spec fn spec_set_pixel(
    data: Seq<u8>,
    w: int,
    x: int,
    y: int,
    r: u8,
    g: u8,
    b: u8,
    a: u8,
) -> Seq<u8> {
    data.update(4 * (y * w + x), r).update(4 * (y * w + x) + 1, g).update(
        4 * (y * w + x) + 2,
        b,
    ).update(4 * (y * w + x) + 3, a)
}

/// The byte range of pixel `(x, y)` lies inside a `w * h` RGBA buffer.
pub proof fn lemma_pixel_index_bounds(w: int, h: int, x: int, y: int)
    by (nonlinear_arith)
    requires
        0 <= x < w,
        0 <= y < h,
    ensures
        0 <= y * w + x,
        y * w + x < w * h,
        4 * (y * w + x) + 3 < 4 * (w * h),
{
}

/// A CPU-side RGBA8 image with four bytes per pixel.
pub struct CpuTexture {
    width: usize,
    height: usize,
    data: Vec<u8>,
}

impl View for CpuTexture {
    type V = TextureView;

    closed spec fn view(&self) -> TextureView {
        TextureView { width: self.width as nat, height: self.height as nat, data: self.data@ }
    }
}

impl CpuTexture {
    /// Size and shape agree: four bytes for each of the `width * height`
    /// pixels.
    pub open spec fn wf(self) -> bool {
        self@.data.len() == 4 * (self@.width * self@.height)
    }

    pub fn new(width: usize, height: usize, data: Vec<u8>) -> (t: Self)
        requires
            data@.len() == 4 * (width * height),
        ensures
            t@ == (TextureView { width: width as nat, height: height as nat, data: data@ }),
            t.wf(),
    {
        Self { width, height, data }
    }

    pub fn get_width(&self) -> (w: usize)
        ensures
            w == self@.width,
    {
        self.width
    }

    pub fn get_height(&self) -> (h: usize)
        ensures
            h == self@.height,
    {
        self.height
    }

    /// Overwrites the four bytes of pixel `(x, y)` with `r, g, b, a`.
    pub fn set_pixel(&mut self, x: usize, y: usize, r: u8, g: u8, b: u8, a: u8)
        requires
            old(self).wf(),
            x < old(self)@.width,
            y < old(self)@.height,
        ensures
            final(self)@.width == old(self)@.width,
            final(self)@.height == old(self)@.height,
            final(self)@.data == spec_set_pixel(
                old(self)@.data,
                old(self)@.width as int,
                x as int,
                y as int,
                r,
                g,
                b,
                a,
            ),
            final(self).wf(),
    {
        proof {
            lemma_pixel_index_bounds(
                self@.width as int,
                self@.height as int,
                x as int,
                y as int,
            );
            assert(self.data@.len() == self.data.len() && self.data.len() <= usize::MAX);
        }
        let i: usize = (y * self.width + x) * 4;
        self.data[i] = r;
        self.data[i + 1] = g;
        self.data[i + 2] = b;
        self.data[i + 3] = a;
    }

    pub fn get_pixels(&self) -> (bytes: &Vec<u8>)
        ensures
            bytes@ == self@.data,
    {
        &self.data
    }

    /// Reads the four bytes of pixel `(x, y)` as `(r, g, b, a)`.
    pub fn get_pixel(&self, x: usize, y: usize) -> (p: (u8, u8, u8, u8))
        requires
            self.wf(),
            x < self@.width,
            y < self@.height,
        ensures
            p.0 == self@.data[4 * (y * self@.width + x)],
            p.1 == self@.data[4 * (y * self@.width + x) + 1],
            p.2 == self@.data[4 * (y * self@.width + x) + 2],
            p.3 == self@.data[4 * (y * self@.width + x) + 3],
    {
        proof {
            lemma_pixel_index_bounds(
                self@.width as int,
                self@.height as int,
                x as int,
                y as int,
            );
            assert(self.data@.len() == self.data.len() && self.data.len() <= usize::MAX);
        }
        let i: usize = (y * self.width + x) * 4;
        let r: u8 = self.data[i];
        let g: u8 = self.data[i + 1];
        let b: u8 = self.data[i + 2];
        let a: u8 = self.data[i + 3];
        (r, g, b, a)
    }
}

} // verus!
