use vstd::prelude::*;

use crate::image::format::ImageFormat;
use crate::image::view::{pixel_index, Image2dView};

verus! {

/// How a sampler picks texels.
#[derive(Clone, Copy, PartialEq, Eq, Structural, Debug)]
pub enum FilterMode {
    Nearest,
    Linear,
}

/// Reads textures with a fixed filter mode.
pub struct Sampler2d {
    filter: FilterMode,
}

/// `v` clamped to at most `max`.
pub open spec fn clamp_max(v: u32, max: u32) -> u32 {
    if v < max {
        v
    } else {
        max
    }
}

impl Sampler2d {
    /// The filter mode.
    pub closed spec fn spec_filter(&self) -> FilterMode {
        self.filter
    }

    /// A sampler with filter mode `filter`.
    pub fn new(filter: FilterMode) -> (r: Self)
        ensures
            r.spec_filter() == filter,
    {
        Self { filter }
    }

    /// The filter mode.
    pub fn filter(&self) -> (r: FilterMode)
        ensures
            r == self.spec_filter(),
    {
        self.filter
    }

    /// The texel a nearest-filtering sample at texel coordinates
    /// `(texel_x, texel_y)` reads: coordinates past the last column or row
    /// read the last one. (Texture coordinates are scaled to texel
    /// coordinates by the caller.) Linear filtering is not implemented.
    pub fn sample_texel<'a, T: ImageFormat>(&self, texture: Image2dView<'a, T>, texel_x: u32, texel_y: u32) -> (r: T)
        requires
            self.spec_filter() == FilterMode::Nearest,
            texture.wf(),
            texture.spec_width() > 0,
            texture.spec_height() > 0,
        ensures
            r == texture.pixels()[pixel_index(
                texture.spec_width(),
                clamp_max(texel_x, (texture.spec_width() - 1) as u32),
                clamp_max(texel_y, (texture.spec_height() - 1) as u32),
            )],
            texel_x < texture.spec_width() && texel_y < texture.spec_height() ==> r
                == texture.pixels()[texel_y * texture.spec_width() + texel_x],
    {
        match self.filter {
            FilterMode::Nearest => {
                let x = texel_x.min(texture.width() - 1);
                let y = texel_y.min(texture.height() - 1);
                proof {
                    let w = texture.spec_width() as int;
                    let h = texture.spec_height() as int;
                    assert(y * w + x < w * h) by (nonlinear_arith)
                        requires
                            0 <= x < w,
                            0 <= y < h,
                    ;
                }
                *texture.get(x, y)
            },
            FilterMode::Linear => {
                proof {
                    assert(false);
                }
                *texture.get(0, 0)
            },
        }
    }
}

/// Nearest sampling reads the texel it is given when that texel is in the
/// texture, and otherwise the nearest edge texel: the clamped coordinate of
/// a sample at `v` in an axis of `len` texels is `v` itself when `v < len`
/// and the last texel, `len - 1`, past the end; it always lies in the axis.
pub proof fn lemma_nearest_texel_coordinate(v: u32, len: u32)
    requires
        len > 0,
    ensures
        clamp_max(v, (len - 1) as u32) < len,
        v < len ==> clamp_max(v, (len - 1) as u32) == v,
        v >= len ==> clamp_max(v, (len - 1) as u32) == len - 1,
{
}

/// A nearest sample of a texel inside the texture reads exactly that texel:
/// the pixel at row `y`, column `x`, of the row-major pixels.
pub proof fn lemma_nearest_sample_in_texture<'a, T: ImageFormat>(texture: Image2dView<'a, T>, x: u32, y: u32)
    requires
        texture.wf(),
        x < texture.spec_width(),
        y < texture.spec_height(),
    ensures
        texture.pixels()[pixel_index(
            texture.spec_width(),
            clamp_max(x, (texture.spec_width() - 1) as u32),
            clamp_max(y, (texture.spec_height() - 1) as u32),
        )] == texture.pixels()[y * texture.spec_width() + x],
{
    lemma_nearest_texel_coordinate(x, texture.spec_width());
    lemma_nearest_texel_coordinate(y, texture.spec_height());
}

} // verus!
