use vstd::prelude::*;

use std::marker::PhantomData;

use crate::image::format::ImageFormat;
use crate::image::view::{index_in_image, pixel_index, ImageViewMut};

verus! {

/// A rectangular tile of an image: the pixel index of its top left pixel in
/// the image, the image's row stride, and the tile's size (clipped to the
/// image).
pub struct TileMut<T: ImageFormat> {
    base: usize,
    stride: u32,
    width: u32,
    height: u32,
    _marker: PhantomData<T>,
}

impl<T: ImageFormat> TileMut<T> {
    /// Pixel index of the tile's top left pixel in the image.
    pub closed spec fn spec_base(&self) -> int {
        self.base as int
    }

    /// Row stride of the image, in pixels.
    pub closed spec fn spec_stride(&self) -> u32 {
        self.stride
    }

    /// Width of the tile, in pixels.
    pub closed spec fn spec_width(&self) -> u32 {
        self.width
    }

    /// Height of the tile, in pixels.
    pub closed spec fn spec_height(&self) -> u32 {
        self.height
    }

    /// Tile `(offset_x, offset_y)` of a grid of `width` by `height` tiles over
    /// `image`, clipped to the image.
    pub fn new(image: &ImageViewMut<'_, T>, width: u32, height: u32, offset_x: u32, offset_y: u32) -> (r: Self)
        requires
            image.wf(),
            offset_x * width < image.width,
            offset_y * height < image.height,
        ensures
            r.spec_stride() == image.width,
            r.spec_base() == pixel_index(image.width, (offset_x * width) as u32, (offset_y * height) as u32),
            r.spec_width() == if width < image.width - offset_x * width {
                width as int
            } else {
                image.width - offset_x * width
            },
            r.spec_height() == if height < image.height - offset_y * height {
                height as int
            } else {
                image.height - offset_y * height
            },
    {
        let stride = image.width();
        let base_x = offset_x * width;
        let base_y = offset_y * height;

        let tile_width = width.min(image.width() - base_x);
        let tile_height = height.min(image.height() - base_y);
        proof {
            assert(base_y * stride + base_x < stride * image.height) by (nonlinear_arith)
                requires
                    base_x < stride,
                    base_y < image.height,
            ;
        }

        Self {
            base: (base_y * stride + base_x) as usize,
            stride,
            width: tile_width,
            height: tile_height,
            _marker: PhantomData,
        }
    }

    /// Pixel index in the image of the tile's pixel `(x, y)`.
    pub open spec fn image_index(&self, x: u32, y: u32) -> int {
        self.spec_base() + y * self.spec_stride() + x
    }

    /// The tile's pixel `(x, y)`, as a pixel of `image`, to be written in place.
    pub fn get_mut<'b, 'c>(&self, image: &'b mut ImageViewMut<'c, T>, x: u32, y: u32) -> (r: &'b mut T)
        requires
            old(image).wf(),
            x < self.spec_width(),
            y < self.spec_height(),
            0 <= self.image_index(x, y) < old(image).data@.len(),
        ensures
            *r == old(image).data@[self.image_index(x, y)],
            final(image).data@ == old(image).data@.update(self.image_index(x, y), *final(r)),
            final(image).width == old(image).width,
            final(image).height == old(image).height,
            final(final(image).data)@ == final(old(image).data)@,
    {
        let len = image.data.len();
        proof {
            assert(0 <= y * self.stride) by (nonlinear_arith);
            assert(self.image_index(x, y) < len);
        }
        let index = self.base + (y as usize) * (self.stride as usize) + (x as usize);
        &mut image.data[index]
    }
}

} // verus!
