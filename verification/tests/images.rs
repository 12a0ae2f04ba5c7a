use nalvik::image::format::{DepthFormat, ImageFormat, RgbaU8};
use nalvik::image::view::{Image2dView, Image2dViewMut, ImageView, ImageViewMut};
use nalvik::image::{Image, Image2d, ImageLoadError};
use nalvik::pipeline::depth_state::{DepthState, DepthTest};
use nalvik::pipeline::tile::TileMut;
use nalvik::sampler::{FilterMode, Sampler2d};

#[derive(Clone, Copy, Debug, PartialEq)]
struct Depth(u32);

impl ImageFormat for Depth {}

impl DepthFormat for Depth {
    fn less_spec(a: &Self, b: &Self) -> bool {
        a.0 < b.0
    }
    fn greater_spec(a: &Self, b: &Self) -> bool {
        a.0 > b.0
    }
    fn less_equal_spec(a: &Self, b: &Self) -> bool {
        a.0 <= b.0
    }
    fn greater_equal_spec(a: &Self, b: &Self) -> bool {
        a.0 >= b.0
    }
    fn equal_spec(a: &Self, b: &Self) -> bool {
        a.0 == b.0
    }
    fn compare_less(a: &Self, b: &Self) -> bool {
        a.0 < b.0
    }
    fn compare_greater(a: &Self, b: &Self) -> bool {
        a.0 > b.0
    }
    fn compare_less_equal(a: &Self, b: &Self) -> bool {
        a.0 <= b.0
    }
    fn compare_greater_equal(a: &Self, b: &Self) -> bool {
        a.0 >= b.0
    }
    fn compare_equal(a: &Self, b: &Self) -> bool {
        a.0 == b.0
    }
}

#[test]
fn image2d_new_fills_with_clear_value() {
    let img = Image2d::new(Depth(7), 3, 2);
    assert_eq!(img.width(), 3);
    assert_eq!(img.height(), 2);
    let v = img.view();
    for y in 0..2 {
        for x in 0..3 {
            assert_eq!(*v.get(x, y), Depth(7));
        }
    }
}

#[test]
fn image2d_write_through_view_then_read() {
    let mut img = Image2d::new(Depth(0), 4, 3);
    {
        let mut v = img.view_mut();
        *v.get_mut(2, 1) = Depth(9);
        assert_eq!(*v.get(2, 1), Depth(9));
        assert_eq!(v.width(), 4);
        assert_eq!(v.height(), 3);
    }
    let v = img.view();
    assert_eq!(*v.get(2, 1), Depth(9));
    assert_eq!(*v.get(1, 2), Depth(0));
    assert_eq!(*v.get(3, 0), Depth(0));
}

#[test]
fn image2d_clear_sets_every_pixel() {
    let mut img = Image2d::new(Depth(1), 2, 2);
    img.view_mut().data[3] = Depth(5);
    img.clear(Depth(4));
    let v = img.view();
    assert_eq!(*v.get(0, 0), Depth(4));
    assert_eq!(*v.get(1, 1), Depth(4));
}

#[test]
fn image2d_from_raw_rgba() {
    let raw: Vec<u8> = (0..24u8).collect();
    let img = Image2d::from_raw_rgba(&raw, 3, 2);
    let v = img.view();
    assert_eq!(v.get(0, 0).rgba, [0, 1, 2, 3]);
    assert_eq!(v.get(2, 1).rgba, [20, 21, 22, 23]);
}

#[test]
fn views_over_slices() {
    let data = [1u32, 2, 3, 4, 5, 6].map(Depth);
    let v = Image2dView::new(&data, 2, 3);
    assert_eq!(*v.get(1, 2), Depth(6));
    let w = ImageView::new(&data, 3, 2);
    assert_eq!(*w.get(0, 1), Depth(4));
    assert_eq!(w.width(), 3);
    assert_eq!(w.height(), 2);
    let mut buf = data;
    {
        let mut m = ImageViewMut::new(&mut buf, 3, 2);
        *m.get_mut(2, 0) = Depth(30);
        assert_eq!(*m.get(2, 0), Depth(30));
    }
    assert_eq!(buf[2], Depth(30));
    {
        let mut m = Image2dViewMut::new(&mut buf, 6, 1);
        *m.get_mut(5, 0) = Depth(60);
    }
    assert_eq!(buf[5], Depth(60));
}

#[test]
fn image_new_and_views() {
    let mut img = Image::new(Depth(2), 2, 2);
    {
        let mut m = img.view_mut();
        *m.get_mut(1, 0) = Depth(8);
    }
    let v = img.view();
    assert_eq!(*v.get(1, 0), Depth(8));
    assert_eq!(*v.get(0, 1), Depth(2));
}

#[test]
fn depth_test_compares_new_against_old() {
    let old = Depth(5);
    assert!(DepthTest::Less.compare(&old, &Depth(4)));
    assert!(!DepthTest::Less.compare(&old, &Depth(5)));
    assert!(DepthTest::LessEqual.compare(&old, &Depth(5)));
    assert!(DepthTest::Greater.compare(&old, &Depth(6)));
    assert!(!DepthTest::Greater.compare(&old, &Depth(4)));
    assert!(DepthTest::GreaterEqual.compare(&old, &Depth(5)));
    assert!(DepthTest::Equal.compare(&old, &Depth(5)));
    assert!(!DepthTest::Equal.compare(&old, &Depth(6)));
}

#[test]
fn keep_fragment_compare_and_write() {
    let mut img = Image::new(Depth(10), 2, 2);
    {
        let mut state = DepthState::CompareAndWrite(img.view_mut(), DepthTest::Less);
        assert!(state.keep_fragment(1, 1, Depth(7)));
        assert!(!state.keep_fragment(1, 1, Depth(8)));
        assert!(state.keep_fragment(1, 1, Depth(3)));
        assert!(!state.keep_fragment(0, 0, Depth(10)));
    }
    let v = img.view();
    assert_eq!(*v.get(1, 1), Depth(3));
    assert_eq!(*v.get(0, 0), Depth(10));
}

#[test]
fn keep_fragment_other_states() {
    let mut img = Image::new(Depth(10), 2, 1);
    {
        let mut state = DepthState::WriteOnly(img.view_mut());
        assert!(state.keep_fragment(1, 0, Depth(99)));
    }
    assert_eq!(*img.view().get(1, 0), Depth(99));
    let mut state = DepthState::CompareOnly(img.view(), DepthTest::Greater);
    assert!(state.keep_fragment(0, 0, Depth(11)));
    assert!(!state.keep_fragment(1, 0, Depth(11)));
    let mut none: DepthState<Depth> = DepthState::Disabled;
    assert!(none.keep_fragment(5, 5, Depth(0)));
    assert_eq!(*img.view().get(0, 0), Depth(10));
}

#[test]
fn tile_clips_to_image_and_addresses_pixels() {
    let mut buf = [Depth(0); 20];
    let mut view = ImageViewMut::new(&mut buf, 5, 4);
    let tile = TileMut::new(&view, 4, 4, 1, 0);
    *tile.get_mut(&mut view, 0, 2) = Depth(1);
    drop(view);
    assert_eq!(buf[2 * 5 + 4], Depth(1));
    let mut view = ImageViewMut::new(&mut buf, 5, 4);
    let tile = TileMut::new(&view, 2, 2, 1, 1);
    *tile.get_mut(&mut view, 1, 1) = Depth(2);
    assert_eq!(*view.get(3, 3), Depth(2));
}

#[test]
fn sampler_nearest_clamps_to_edge() {
    let data = [1u32, 2, 3, 4, 5, 6].map(Depth);
    let tex = Image2dView::new(&data, 3, 2);
    let s = Sampler2d::new(FilterMode::Nearest);
    assert_eq!(s.sample_texel(tex, 1, 0), Depth(2));
    assert_eq!(s.sample_texel(tex, 7, 0), Depth(3));
    assert_eq!(s.sample_texel(tex, 0, 9), Depth(4));
    assert_eq!(s.sample_texel(tex, 100, 100), Depth(6));
}

#[test]
fn rgba_is_an_image_format() {
    let img = Image2d::new(RgbaU8::new([1, 2, 3, 4]), 1, 1);
    assert_eq!(img.view().get(0, 0).rgba, [1, 2, 3, 4]);
}

#[test]
fn image_load_error_from_sources() {
    let io = std::io::Error::new(std::io::ErrorKind::NotFound, "missing");
    assert!(matches!(ImageLoadError::from(io), ImageLoadError::Io(_)));
    let decode = image::ImageError::Parameter(image::error::ParameterError::from_kind(
        image::error::ParameterErrorKind::DimensionMismatch,
    ));
    assert!(matches!(ImageLoadError::from(decode), ImageLoadError::Image(_)));
}

fn png_bytes(width: u32, height: u32, f: impl Fn(u32, u32) -> [u8; 4]) -> Vec<u8> {
    let img = image::RgbaImage::from_fn(width, height, |x, y| image::Rgba(f(x, y)));
    let mut out = std::io::Cursor::new(Vec::new());
    img.write_to(&mut out, image::ImageFormat::Png).unwrap();
    out.into_inner()
}

#[test]
fn decode_png_gives_its_pixels() {
    let bytes = png_bytes(3, 2, |x, y| [x as u8 * 10, y as u8 * 20, 7, 255]);
    let img = Image2d::decode("png", &bytes).unwrap();
    assert_eq!(img.width(), 3);
    assert_eq!(img.height(), 2);
    let v = img.view();
    assert_eq!(v.get(2, 1).rgba, [20, 20, 7, 255]);
    assert_eq!(v.get(0, 0).rgba, [0, 0, 7, 255]);
    let upper = Image2d::decode("PNG", &bytes).unwrap();
    assert_eq!(upper.view().get(1, 1).rgba, [10, 20, 7, 255]);
}

#[test]
fn decode_rejects_unknown_extension_and_bad_bytes() {
    let bytes = png_bytes(1, 1, |_, _| [1, 2, 3, 4]);
    assert!(matches!(Image2d::decode("", &bytes), Err(ImageLoadError::Image(_))));
    assert!(matches!(Image2d::decode("notaformat", &bytes), Err(ImageLoadError::Image(_))));
    assert!(matches!(Image2d::decode("png", &[1, 2, 3]), Err(ImageLoadError::Image(_))));
}

#[test]
fn from_decoded_checks_the_buffer_size() {
    assert!(matches!(Image2d::from_decoded(Ok((2, 2, vec![0u8; 15]))), Err(ImageLoadError::SizeMismatch)));
    assert!(matches!(
        Image2d::from_decoded(Ok((65536, 65537, Vec::new()))),
        Err(ImageLoadError::SizeMismatch)
    ));
    let img = Image2d::from_decoded(Ok((1, 2, vec![1, 2, 3, 4, 5, 6, 7, 8]))).unwrap();
    assert_eq!(img.view().get(0, 1).rgba, [5, 6, 7, 8]);
}
