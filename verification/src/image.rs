use vstd::prelude::*;

use crate::image::view::{fills_image, Image2dView, Image2dViewMut, ImageView, ImageViewMut};

pub mod format;
pub mod view;

verus! {

pub use crate::image::format::{DepthFormat, ImageFormat, RgbaU8};

use crate::image::format::{pixels_match_bytes, rgba_pixels_from_bytes};

/// Declares `std::io::Error` to Verus, as an opaque type.
#[verifier::external_type_specification]
#[verifier::external_body]
pub struct ExIoError(std::io::Error);

/// Declares `image::ImageError` to Verus, as an opaque type.
#[verifier::external_type_specification]
#[verifier::external_body]
pub struct ExImageError(image::ImageError);

/// Why loading an image from a file failed: reading the file, decoding it, or
/// a decoded pixel buffer that does not hold `width * height` RGBA pixels
/// with that count representable as `u32`.
#[derive(Debug)]
pub enum ImageLoadError {
    Io(std::io::Error),
    Image(image::ImageError),
    SizeMismatch,
}

/// What the `image` crate decodes `bytes` to, as RGBA with eight bits per
/// channel, when the file's extension is `ext`: width, height and the packed
/// pixel bytes, or nothing when decoding fails.
pub uninterp spec fn decoded_rgba8(ext: Seq<char>, bytes: Seq<u8>) -> Option<(u32, u32, Seq<u8>)>;

/// Decodes `bytes` with the `image` crate as the format its extension `ext`
/// names (`image::ImageFormat::from_extension`; with no known format,
/// `ImageReader::decode` fails), converts the image to RGBA8
/// (`DynamicImage::into_rgba8`) and hands out width, height and the raw bytes
/// (`ImageBuffer::into_raw`). Trusted: the contract only names the outcome,
/// `decoded_rgba8(ext, bytes)`, a function of the two arguments; which error
/// comes back on failure is left unsaid.
#[verifier::external_body]
fn decode_rgba8(ext: &str, bytes: &[u8]) -> (r: Result<(u32, u32, Vec<u8>), image::ImageError>)
    ensures
        r is Ok <==> decoded_rgba8(ext@, bytes@) is Some,
        r matches Ok(t) ==> decoded_rgba8(ext@, bytes@) == Some((t.0, t.1, t.2@)),
{
    let reader = match image::ImageFormat::from_extension(ext) {
        Some(format) => image::ImageReader::with_format(std::io::Cursor::new(bytes), format),
        None => image::ImageReader::new(std::io::Cursor::new(bytes)),
    };
    let image = reader.decode()?.into_rgba8();
    Ok((image.width(), image.height(), image.into_raw()))
}

/// A decoded RGBA8 buffer fits an image: `width * height` pixels, a count
/// representable as `u32`, four bytes each.
pub open spec fn decoded_fits(width: u32, height: u32, raw: Seq<u8>) -> bool {
    &&& width * height <= u32::MAX
    &&& raw.len() == 4 * (width * height)
}

impl From<std::io::Error> for ImageLoadError {
    fn from(value: std::io::Error) -> (r: Self) {
        Self::Io(value)
    }
}

impl vstd::std_specs::convert::FromSpecImpl<std::io::Error> for ImageLoadError {
    open spec fn obeys_from_spec() -> bool {
        true
    }

    open spec fn from_spec(value: std::io::Error) -> Self {
        ImageLoadError::Io(value)
    }
}

impl From<image::ImageError> for ImageLoadError {
    fn from(value: image::ImageError) -> (r: Self) {
        Self::Image(value)
    }
}

impl vstd::std_specs::convert::FromSpecImpl<image::ImageError> for ImageLoadError {
    open spec fn obeys_from_spec() -> bool {
        true
    }

    open spec fn from_spec(value: image::ImageError) -> Self {
        ImageLoadError::Image(value)
    }
}

impl Image2d<RgbaU8> {
    /// The image a decoder's result describes: the decoder's error as
    /// `ImageLoadError::Image`, a buffer that does not fit its size as
    /// `ImageLoadError::SizeMismatch`, and otherwise the image of that width,
    /// height and pixels.
    pub fn from_decoded(decoded: Result<(u32, u32, Vec<u8>), image::ImageError>) -> (r: Result<Self, ImageLoadError>)
        ensures
            match decoded {
                Ok(t) => if decoded_fits(t.0, t.1, t.2@) {
                    r matches Ok(img) && img.wf() && img.spec_width() == t.0 && img.spec_height() == t.1
                        && pixels_match_bytes(img.pixels(), t.2@)
                } else {
                    r matches Err(ImageLoadError::SizeMismatch)
                },
                Err(e) => r matches Err(ImageLoadError::Image(e2)) && e2 == e,
            },
    {
        match decoded {
            Ok((width, height, raw)) => {
                proof {
                    assert((width as u64) * (height as u64) <= u64::MAX) by (nonlinear_arith)
                        requires
                            width <= u32::MAX,
                            height <= u32::MAX,
                    ;
                }
                if (width as u64) * (height as u64) <= u32::MAX as u64 && raw.len() as u64 == 4 * ((
                width as u64) * (height as u64)) {
                    Ok(Self::from_raw_rgba(raw.as_slice(), width, height))
                } else {
                    Err(ImageLoadError::SizeMismatch)
                }
            },
            Err(e) => Err(ImageLoadError::Image(e)),
        }
    }

    /// Decodes the contents `bytes` of an image file whose extension is `ext`
    /// into an RGBA8 image.
    pub fn decode(ext: &str, bytes: &[u8]) -> (r: Result<Self, ImageLoadError>)
        ensures
            (r is Ok) <==> (decoded_rgba8(ext@, bytes@) matches Some(t) && decoded_fits(t.0, t.1, t.2)),
            r matches Ok(img) ==> (decoded_rgba8(ext@, bytes@) matches Some(t) && img.wf() && img.spec_width()
                == t.0 && img.spec_height() == t.1 && pixels_match_bytes(img.pixels(), t.2)),
            r matches Err(e) ==> (if decoded_rgba8(ext@, bytes@) is Some {
                e is SizeMismatch
            } else {
                e is Image
            }),
    {
        Self::from_decoded(decode_rgba8(ext, bytes))
    }

    /// The image of `width` by `height` whose pixels are the packed RGBA bytes
    /// `raw` (four per pixel, row by row), as a decoder hands them out.
    pub fn from_raw_rgba(raw: &[u8], width: u32, height: u32) -> (r: Self)
        requires
            width * height <= u32::MAX,
            raw@.len() == 4 * (width * height),
        ensures
            r.wf(),
            r.spec_width() == width,
            r.spec_height() == height,
            pixels_match_bytes(r.pixels(), raw@),
    {
        Self { data: rgba_pixels_from_bytes(raw), width, height }
    }
}

/// An owned image of `width` by `height` pixels stored row by row.
pub struct Image2d<T: ImageFormat> {
    data: Vec<T>,
    width: u32,
    height: u32,
}

impl<T: ImageFormat> Image2d<T> {
    /// The pixels, row by row.
    pub closed spec fn pixels(&self) -> Seq<T> {
        self.data@
    }

    /// The width in pixels.
    pub closed spec fn spec_width(&self) -> u32 {
        self.width
    }

    /// The height in pixels.
    pub closed spec fn spec_height(&self) -> u32 {
        self.height
    }

    /// The pixels fill the image exactly.
    pub open spec fn wf(&self) -> bool {
        &&& self.spec_width() * self.spec_height() <= u32::MAX
        &&& self.pixels().len() == self.spec_width() * self.spec_height()
    }

    /// An image of `width` by `height` with every pixel `clear_value`.
    pub fn new(clear_value: T, width: u32, height: u32) -> (r: Self)
        requires
            width * height <= u32::MAX,
        ensures
            r.wf(),
            r.spec_width() == width,
            r.spec_height() == height,
            r.pixels() == Seq::new((width * height) as nat, |i: int| clear_value),
    {
        Self { data: filled_vec(clear_value, (width * height) as usize), width, height }
    }

    /// The width in pixels.
    pub fn width(&self) -> (r: u32)
        ensures
            r == self.spec_width(),
    {
        self.width
    }

    /// The height in pixels.
    pub fn height(&self) -> (r: u32)
        ensures
            r == self.spec_height(),
    {
        self.height
    }

    /// A read-only view of the whole image.
    pub fn view(&self) -> (r: Image2dView<'_, T>)
        requires
            self.wf(),
        ensures
            r.wf(),
            r.pixels() == self.pixels(),
            r.spec_width() == self.spec_width(),
            r.spec_height() == self.spec_height(),
    {
        Image2dView::new(self.data.as_slice(), self.width, self.height)
    }

    /// A writable view of the whole image; what is written through it is the
    /// image's content once the view is released.
    pub fn view_mut(&mut self) -> (r: Image2dViewMut<'_, T>)
        requires
            old(self).wf(),
        ensures
            r.wf(),
            r.data@ == old(self).pixels(),
            r.width == old(self).spec_width(),
            r.height == old(self).spec_height(),
            final(self).pixels() == final(r.data)@,
            final(self).spec_width() == old(self).spec_width(),
            final(self).spec_height() == old(self).spec_height(),
    {
        Image2dViewMut::new(self.data.as_mut_slice(), self.width, self.height)
    }

    /// Sets every pixel to `value`.
    pub fn clear(&mut self, value: T)
        ensures
            final(self).pixels() == Seq::new(old(self).pixels().len(), |i: int| value),
            final(self).spec_width() == old(self).spec_width(),
            final(self).spec_height() == old(self).spec_height(),
    {
        fill_vec(&mut self.data, value);
    }
}

/// An owned image of `width` by `height` pixels stored row by row, viewed
/// through `ImageView` and `ImageViewMut`.
pub struct Image<T: ImageFormat> {
    data: Vec<T>,
    width: u32,
    height: u32,
}

impl<T: ImageFormat> Image<T> {
    /// The pixels, row by row.
    pub closed spec fn pixels(&self) -> Seq<T> {
        self.data@
    }

    /// The width in pixels.
    pub closed spec fn spec_width(&self) -> u32 {
        self.width
    }

    /// The height in pixels.
    pub closed spec fn spec_height(&self) -> u32 {
        self.height
    }

    /// The pixels fill the image exactly.
    pub open spec fn wf(&self) -> bool {
        &&& self.spec_width() * self.spec_height() <= u32::MAX
        &&& self.pixels().len() == self.spec_width() * self.spec_height()
    }

    /// An image of `width` by `height` with every pixel `clear_value`.
    pub fn new(clear_value: T, width: u32, height: u32) -> (r: Self)
        requires
            width * height <= u32::MAX,
        ensures
            r.wf(),
            r.spec_width() == width,
            r.spec_height() == height,
            r.pixels() == Seq::new((width * height) as nat, |i: int| clear_value),
    {
        Self { data: filled_vec(clear_value, (width * height) as usize), width, height }
    }

    /// A read-only view of the whole image.
    pub fn view(&self) -> (r: ImageView<'_, T>)
        requires
            self.wf(),
        ensures
            r.wf(),
            r.pixels() == self.pixels(),
            r.spec_width() == self.spec_width(),
            r.spec_height() == self.spec_height(),
    {
        ImageView::new(self.data.as_slice(), self.width, self.height)
    }

    /// A writable view of the whole image; what is written through it is the
    /// image's content once the view is released.
    pub fn view_mut(&mut self) -> (r: ImageViewMut<'_, T>)
        requires
            old(self).wf(),
        ensures
            r.wf(),
            r.data@ == old(self).pixels(),
            r.width == old(self).spec_width(),
            r.height == old(self).spec_height(),
            final(self).pixels() == final(r.data)@,
            final(self).spec_width() == old(self).spec_width(),
            final(self).spec_height() == old(self).spec_height(),
    {
        ImageViewMut::new(self.data.as_mut_slice(), self.width, self.height)
    }
}

/// A vector of `n` copies of `value`.
fn filled_vec<T: Copy>(value: T, n: usize) -> (r: Vec<T>)
    ensures
        r@ == Seq::new(n as nat, |i: int| value),
{
    let mut v: Vec<T> = Vec::with_capacity(n);
    let mut i: usize = 0;
    while i < n
        invariant
            i <= n,
            v@ == Seq::new(i as nat, |k: int| value),
        decreases n - i,
    {
        v.push(value);
        i += 1;
        assert(v@ =~= Seq::new(i as nat, |k: int| value));
    }
    v
}

/// Sets every element of `v` to `value`.
fn fill_vec<T: Copy>(v: &mut Vec<T>, value: T)
    ensures
        final(v)@ == Seq::new(old(v)@.len(), |i: int| value),
{
    let n = v.len();
    let mut i: usize = 0;
    while i < n
        invariant
            i <= n,
            n == v@.len(),
            forall|k: int| 0 <= k < i ==> v@[k] == value,
        decreases n - i,
    {
        v.set(i, value);
        i += 1;
    }
    assert(v@ =~= Seq::new(n as nat, |i: int| value));
}

} // verus!
