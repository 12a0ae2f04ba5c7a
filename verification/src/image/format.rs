use vstd::prelude::*;

verus! {

/// A pixel type that images can hold.
pub trait ImageFormat: Copy {}

/// A pixel type for depth buffers: five comparisons, each the relation its
/// spec function names.
pub trait DepthFormat: ImageFormat {
    /// `a` is nearer than `b`.
    spec fn less_spec(a: &Self, b: &Self) -> bool;

    /// `a` is farther than `b`.
    spec fn greater_spec(a: &Self, b: &Self) -> bool;

    /// `a` is nearer than or as near as `b`.
    spec fn less_equal_spec(a: &Self, b: &Self) -> bool;

    /// `a` is farther than or as far as `b`.
    spec fn greater_equal_spec(a: &Self, b: &Self) -> bool;

    /// `a` is as far as `b`.
    spec fn equal_spec(a: &Self, b: &Self) -> bool;

    fn compare_less(a: &Self, b: &Self) -> (r: bool)
        ensures
            r == Self::less_spec(a, b),
    ;

    fn compare_greater(a: &Self, b: &Self) -> (r: bool)
        ensures
            r == Self::greater_spec(a, b),
    ;

    fn compare_less_equal(a: &Self, b: &Self) -> (r: bool)
        ensures
            r == Self::less_equal_spec(a, b),
    ;

    fn compare_greater_equal(a: &Self, b: &Self) -> (r: bool)
        ensures
            r == Self::greater_equal_spec(a, b),
    ;

    fn compare_equal(a: &Self, b: &Self) -> (r: bool)
        ensures
            r == Self::equal_spec(a, b),
    ;
}

/// An 8-bit-per-channel RGBA pixel, channels in memory order.
#[derive(Clone, Copy, Debug)]
pub struct RgbaU8 {
    pub rgba: [u8; 4],
}

impl RgbaU8 {
    /// The pixel with channels `rgba`.
    pub fn new(rgba: [u8; 4]) -> (r: Self)
        ensures
            r.rgba == rgba,
    {
        Self { rgba: [rgba[0], rgba[1], rgba[2], rgba[3]] }
    }
}

impl ImageFormat for RgbaU8 {}

/// The four bytes of pixel `i` of a packed RGBA byte buffer are bytes
/// `4 * i .. 4 * i + 4`.
pub open spec fn packed_channel(bytes: Seq<u8>, i: int, k: int) -> u8 {
    bytes[4 * i + k]
}

/// `pixels` is the pixel reading of the packed RGBA bytes `bytes`.
pub open spec fn pixels_match_bytes(pixels: Seq<RgbaU8>, bytes: Seq<u8>) -> bool {
    &&& bytes.len() == 4 * pixels.len()
    &&& forall|i: int, k: int|
        0 <= i < pixels.len() && 0 <= k < 4 ==> #[trigger] pixels[i].rgba[k] == packed_channel(
            bytes,
            i,
            k,
        )
}

/// Reinterprets a byte slice whose length is a multiple of four as a slice of
/// four-byte arrays, by `bytemuck::cast_slice`. Trusted: the contract says
/// that element `i` of the result is bytes `4 * i .. 4 * i + 4` of the input,
/// as bytemuck documents for a cast between plain-data types of size 1 and 4
/// and alignment 1 (it panics when the length is not a multiple of four, which
/// `requires` leaves out).
#[verifier::external_body]
fn cast_bytes_to_quads(bytes: &[u8]) -> (r: &[[u8; 4]])
    requires
        bytes@.len() % 4 == 0,
    ensures
        4 * r@.len() == bytes@.len(),
        forall|i: int, k: int|
            0 <= i < r@.len() && 0 <= k < 4 ==> #[trigger] r@[i][k] == packed_channel(bytes@, i, k),
{
    bytemuck::cast_slice::<u8, [u8; 4]>(bytes)
}

/// Reads packed RGBA bytes (four per pixel, channels in order) as pixels.
pub fn rgba_pixels_from_bytes(bytes: &[u8]) -> (r: Vec<RgbaU8>)
    requires
        bytes@.len() % 4 == 0,
    ensures
        pixels_match_bytes(r@, bytes@),
{
    let quads = cast_bytes_to_quads(bytes);
    let mut pixels: Vec<RgbaU8> = Vec::with_capacity(quads.len());
    let mut i: usize = 0;
    while i < quads.len()
        invariant
            i <= quads@.len(),
            4 * quads@.len() == bytes@.len(),
            pixels@.len() == i,
            forall|j: int, k: int|
                0 <= j < quads@.len() && 0 <= k < 4 ==> #[trigger] quads@[j][k] == packed_channel(bytes@, j, k),
            forall|j: int, k: int|
                0 <= j < i && 0 <= k < 4 ==> #[trigger] pixels@[j].rgba[k] == packed_channel(bytes@, j, k),
        decreases quads@.len() - i,
    {
        let quad = quads[i];
        let pixel = RgbaU8::new(quad);
        pixels.push(pixel);
        proof {
            assert forall|k: int| 0 <= k < 4 implies #[trigger] pixels@[i as int].rgba[k] == packed_channel(bytes@, i as int, k) by {
                assert(quads@[i as int][k] == packed_channel(bytes@, i as int, k));
            }
        }
        i += 1;
    }
    pixels
}

/// Packing is lossless both ways: the pixels read from a byte buffer, written
/// back, give the same bytes, and two byte buffers that both pack the same
/// pixels are equal.
pub proof fn lemma_rgba_bytes_roundtrip(pixels: Seq<RgbaU8>, bytes: Seq<u8>, bytes2: Seq<u8>)
    requires
        pixels_match_bytes(pixels, bytes),
        pixels_match_bytes(pixels, bytes2),
    ensures
        bytes == bytes2,
{
    assert forall|n: int| 0 <= n < bytes.len() implies bytes[n] == bytes2[n] by {
        let i = n / 4;
        let k = n % 4;
        vstd::arithmetic::div_mod::lemma_fundamental_div_mod(n, 4);
        assert(pixels[i].rgba[k] == packed_channel(bytes, i, k));
        assert(pixels[i].rgba[k] == packed_channel(bytes2, i, k));
    }
    assert(bytes =~= bytes2);
}

/// Writes pixels into a packed RGBA byte buffer (four bytes per pixel,
/// channels in order).
pub fn write_rgba_bytes(pixels: &[RgbaU8], bytes: &mut [u8])
    requires
        old(bytes)@.len() == 4 * pixels@.len(),
    ensures
        pixels_match_bytes(pixels@, final(bytes)@),
{
    let n = pixels.len();
    let byte_len = bytes.len();
    let mut i: usize = 0;
    while i < n
        invariant
            i <= n,
            n == pixels@.len(),
            4 * n == byte_len,
            bytes@.len() == 4 * n,
            forall|j: int, k: int|
                0 <= j < i && 0 <= k < 4 ==> #[trigger] pixels@[j].rgba[k] == packed_channel(bytes@, j, k),
        decreases n - i,
    {
        let rgba = pixels[i].rgba;
        bytes[4 * i] = rgba[0];
        bytes[4 * i + 1] = rgba[1];
        bytes[4 * i + 2] = rgba[2];
        bytes[4 * i + 3] = rgba[3];
        proof {
            assert forall|j: int, k: int|
                0 <= j < i + 1 && 0 <= k < 4 implies #[trigger] pixels@[j].rgba[k] == packed_channel(bytes@, j, k) by {
                if j == i {
                    assert(k == 0 || k == 1 || k == 2 || k == 3);
                }
            }
        }
        i += 1;
    }
}

} // verus!
