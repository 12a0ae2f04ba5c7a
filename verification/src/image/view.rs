use vstd::prelude::*;

use crate::image::ImageFormat;

verus! {

/// Whether `len` pixels fill an image of `width` by `height`, as the view
/// constructors check it: the pixel count computed in `u32` without overflow,
/// compared with the slice length truncated to `u32`.
pub open spec fn fills_image(len: nat, width: u32, height: u32) -> bool {
    &&& width * height <= u32::MAX
    &&& len as u32 == width * height
}

/// Position of pixel `(x, y)` in the row-major pixel sequence of an image
/// `width` pixels wide.
pub open spec fn pixel_index(width: u32, x: u32, y: u32) -> int {
    y * width + x
}

/// Whether `get(x, y)` addresses a pixel: the row-major index is below the
/// pixel count (so also computable in `u32`).
pub open spec fn index_in_image(width: u32, height: u32, x: u32, y: u32) -> bool {
    pixel_index(width, x, y) < width * height
}

/// Reading a pixel back after writing it: in an image `width` by `height`, the
/// pixel written reads the new value and every other pixel reads what it held
/// before (distinct in-image pixels have distinct indices).
pub proof fn lemma_pixel_read_after_write<T>(
    before: Seq<T>,
    after: Seq<T>,
    width: u32,
    height: u32,
    x: u32,
    y: u32,
    v: T,
    x2: u32,
    y2: u32,
)
    requires
        before.len() == width * height,
        x < width && y < height,
        x2 < width && y2 < height,
        after == before.update(pixel_index(width, x, y), v),
    ensures
        index_in_image(width, height, x, y),
        after[pixel_index(width, x, y)] == v,
        (x2 != x || y2 != y) ==> after[pixel_index(width, x2, y2)] == before[pixel_index(width, x2, y2)],
{
    lemma_pixel_index_in_image(width, height, x, y);
    lemma_pixel_index_in_image(width, height, x2, y2);
    if x2 != x || y2 != y {
        assert(pixel_index(width, x2, y2) != pixel_index(width, x, y)) by (nonlinear_arith)
            requires
                x < width,
                x2 < width,
                x2 != x || y2 != y,
                pixel_index(width, x, y) == y * width + x,
                pixel_index(width, x2, y2) == y2 * width + x2,
        {
            if y < y2 {
                assert(y * width + width <= y2 * width);
            } else if y2 < y {
                assert(y2 * width + width <= y * width);
            }
        }
    }
}

/// A pixel inside the image has its index inside the pixel sequence.
pub proof fn lemma_pixel_index_in_image(width: u32, height: u32, x: u32, y: u32)
    requires
        x < width,
        y < height,
    ensures
        index_in_image(width, height, x, y),
        0 <= pixel_index(width, x, y),
{
    assert(0 <= y * width + x < width * height) by (nonlinear_arith)
        requires
            x < width,
            y < height,
    ;
}

/// A read-only view of `width` by `height` pixels stored row by row.
#[derive(Clone, Copy)]
pub struct Image2dView<'a, T: ImageFormat> {
    data: &'a [T],
    width: u32,
    height: u32,
}

impl<'a, T: ImageFormat> Image2dView<'a, T> {
    /// The pixels, row by row.
    pub closed spec fn pixels(&self) -> Seq<T> {
        self.data@
    }

    /// The width in pixels.
    pub closed spec fn spec_width(&self) -> u32 {
        self.width
    }

    /// The height in pixels.
    pub closed spec fn spec_height(&self) -> u32 {
        self.height
    }

    /// The pixels fill the image.
    pub open spec fn wf(&self) -> bool {
        fills_image(self.pixels().len(), self.spec_width(), self.spec_height())
    }

    /// A view of `data` as an image of `width` by `height`.
    pub fn new(data: &'a [T], width: u32, height: u32) -> (r: Self)
        requires
            fills_image(data@.len(), width, height),
        ensures
            r.wf(),
            r.pixels() == data@,
            r.spec_width() == width,
            r.spec_height() == height,
    {
        Self { data, width, height }
    }

    /// The width in pixels.
    pub fn width(&self) -> (r: u32)
        ensures
            r == self.spec_width(),
    {
        self.width
    }

    /// The height in pixels.
    pub fn height(&self) -> (r: u32)
        ensures
            r == self.spec_height(),
    {
        self.height
    }

    /// The pixel at `(x, y)`.
    pub fn get(&self, x: u32, y: u32) -> (r: &T)
        requires
            self.wf(),
            index_in_image(self.spec_width(), self.spec_height(), x, y),
        ensures
            *r == self.pixels()[pixel_index(self.spec_width(), x, y)],
    {
        &self.data[(y * self.width + x) as usize]
    }
}

/// A writable view of `width` by `height` pixels stored row by row.
pub struct Image2dViewMut<'a, T: ImageFormat> {
    pub data: &'a mut [T],
    pub width: u32,
    pub height: u32,
}

impl<'a, T: ImageFormat> Image2dViewMut<'a, T> {
    /// The pixels, row by row.
    pub open spec fn pixels(&self) -> Seq<T> {
        self.data@
    }

    /// The pixels fill the image.
    pub open spec fn wf(&self) -> bool {
        fills_image(self.data@.len(), self.width, self.height)
    }

    /// A writable view of `data` as an image of `width` by `height`; writes
    /// through it land in `data`.
    pub fn new(data: &'a mut [T], width: u32, height: u32) -> (r: Self)
        requires
            fills_image(old(data)@.len(), width, height),
        ensures
            r.wf(),
            r.data@ == old(data)@,
            final(r.data)@ == final(data)@,
            r.width == width,
            r.height == height,
    {
        Self { data, width, height }
    }

    /// The width in pixels.
    pub fn width(&self) -> (r: u32)
        ensures
            r == self.width,
    {
        self.width
    }

    /// The height in pixels.
    pub fn height(&self) -> (r: u32)
        ensures
            r == self.height,
    {
        self.height
    }

    /// The pixel at `(x, y)`.
    pub fn get(&self, x: u32, y: u32) -> (r: &T)
        requires
            self.wf(),
            index_in_image(self.width, self.height, x, y),
        ensures
            *r == self.pixels()[pixel_index(self.width, x, y)],
    {
        &self.data[(y * self.width + x) as usize]
    }

    /// The pixel at `(x, y)`, to be written in place.
    pub fn get_mut(&mut self, x: u32, y: u32) -> (r: &mut T)
        requires
            old(self).wf(),
            index_in_image(old(self).width, old(self).height, x, y),
        ensures
            *r == old(self).data@[pixel_index(old(self).width, x, y)],
            final(self).data@ == old(self).data@.update(
                pixel_index(old(self).width, x, y),
                *final(r),
            ),
            final(self).width == old(self).width,
            final(self).height == old(self).height,
            final(final(self).data)@ == final(old(self).data)@,
    {
        &mut self.data[(y * self.width + x) as usize]
    }
}

/// A read-only view of `width` by `height` pixels stored row by row.
#[derive(Clone)]
pub struct ImageView<'a, T: ImageFormat> {
    data: &'a [T],
    width: u32,
    height: u32,
}

impl<'a, T: ImageFormat> ImageView<'a, T> {
    /// The pixels, row by row.
    pub closed spec fn pixels(&self) -> Seq<T> {
        self.data@
    }

    /// The width in pixels.
    pub closed spec fn spec_width(&self) -> u32 {
        self.width
    }

    /// The height in pixels.
    pub closed spec fn spec_height(&self) -> u32 {
        self.height
    }

    /// The pixels fill the image.
    pub open spec fn wf(&self) -> bool {
        fills_image(self.pixels().len(), self.spec_width(), self.spec_height())
    }

    /// A view of `data` as an image of `width` by `height`.
    pub fn new(data: &'a [T], width: u32, height: u32) -> (r: Self)
        requires
            fills_image(data@.len(), width, height),
        ensures
            r.wf(),
            r.pixels() == data@,
            r.spec_width() == width,
            r.spec_height() == height,
    {
        Self { data, width, height }
    }

    /// The width in pixels.
    pub fn width(&self) -> (r: u32)
        ensures
            r == self.spec_width(),
    {
        self.width
    }

    /// The height in pixels.
    pub fn height(&self) -> (r: u32)
        ensures
            r == self.spec_height(),
    {
        self.height
    }

    /// The pixel at `(x, y)`.
    pub fn get(&self, x: u32, y: u32) -> (r: &T)
        requires
            self.wf(),
            index_in_image(self.spec_width(), self.spec_height(), x, y),
        ensures
            *r == self.pixels()[pixel_index(self.spec_width(), x, y)],
    {
        &self.data[(y * self.width + x) as usize]
    }
}

/// A writable view of `width` by `height` pixels stored row by row.
pub struct ImageViewMut<'a, T: ImageFormat> {
    pub data: &'a mut [T],
    pub width: u32,
    pub height: u32,
}

impl<'a, T: ImageFormat> ImageViewMut<'a, T> {
    /// The pixels, row by row.
    pub open spec fn pixels(&self) -> Seq<T> {
        self.data@
    }

    /// The pixels fill the image.
    pub open spec fn wf(&self) -> bool {
        fills_image(self.data@.len(), self.width, self.height)
    }

    /// A writable view of `data` as an image of `width` by `height`; writes
    /// through it land in `data`.
    pub fn new(data: &'a mut [T], width: u32, height: u32) -> (r: Self)
        requires
            fills_image(old(data)@.len(), width, height),
        ensures
            r.wf(),
            r.data@ == old(data)@,
            final(r.data)@ == final(data)@,
            r.width == width,
            r.height == height,
    {
        Self { data, width, height }
    }

    /// The width in pixels.
    pub fn width(&self) -> (r: u32)
        ensures
            r == self.width,
    {
        self.width
    }

    /// The height in pixels.
    pub fn height(&self) -> (r: u32)
        ensures
            r == self.height,
    {
        self.height
    }

    /// The pixel at `(x, y)`.
    pub fn get(&self, x: u32, y: u32) -> (r: &T)
        requires
            self.wf(),
            index_in_image(self.width, self.height, x, y),
        ensures
            *r == self.pixels()[pixel_index(self.width, x, y)],
    {
        &self.data[(y * self.width + x) as usize]
    }

    /// The pixel at `(x, y)`, to be written in place.
    pub fn get_mut(&mut self, x: u32, y: u32) -> (r: &mut T)
        requires
            old(self).wf(),
            index_in_image(old(self).width, old(self).height, x, y),
        ensures
            *r == old(self).data@[pixel_index(old(self).width, x, y)],
            final(self).data@ == old(self).data@.update(
                pixel_index(old(self).width, x, y),
                *final(r),
            ),
            final(self).width == old(self).width,
            final(self).height == old(self).height,
            final(final(self).data)@ == final(old(self).data)@,
    {
        &mut self.data[(y * self.width + x) as usize]
    }
}

} // verus!
