use nalvik::image::format::{rgba_pixels_from_bytes, write_rgba_bytes, RgbaU8};
use nalvik::uniform::{unit_type_buf, Uniforms};
use nalvik::util::chunked_vec::ChunkedVec;

#[test]
fn chunked_vec_push_len_index() {
    let mut v: ChunkedVec<u32, 4> = ChunkedVec::with_capacity(2);
    assert_eq!(v.len(), 0);
    for i in 0..10u32 {
        v.push(i * 3);
    }
    assert_eq!(v.len(), 10);
    for i in 0..10usize {
        assert_eq!(v[i], (i as u32) * 3);
    }
    let chunks = v.chunks();
    assert_eq!(chunks.len(), 3);
    assert_eq!(chunks[0].len(), 4);
    assert_eq!(chunks[1].len(), 4);
    assert_eq!(chunks[2].len(), 2);
    assert_eq!(chunks[2][1], 27);
}

#[test]
fn chunked_vec_opens_new_chunk_when_full() {
    let mut v: ChunkedVec<u8, 2> = ChunkedVec::with_capacity(0);
    v.push(1);
    v.push(2);
    assert_eq!(v.chunks().len(), 1);
    v.push(3);
    assert_eq!(v.chunks().len(), 2);
    assert_eq!(v.len(), 3);
    assert_eq!(v[2], 3);
}

#[test]
fn chunked_vec_index_mut_writes_one_element() {
    let mut v: ChunkedVec<i64, 3> = ChunkedVec::with_capacity(1);
    for i in 0..7i64 {
        v.push(i);
    }
    *v.index_mut(4) = -40;
    assert_eq!(v[4], -40);
    assert_eq!(v[3], 3);
    assert_eq!(v[5], 5);
    assert_eq!(v.len(), 7);
}

#[test]
fn chunked_vec_read_after_push() {
    let mut v: ChunkedVec<u16, 1024> = ChunkedVec::with_capacity(64);
    for i in 0..2000u16 {
        v.push(i);
        assert_eq!(v[i as usize], i);
        assert_eq!(v.len(), i as usize + 1);
    }
    assert_eq!(v.chunks().len(), 2);
    assert_eq!(v.chunks()[1].len(), 976);
}

#[test]
fn uniforms_get_picks_each_buffer() {
    let a = [10u32, 11, 12];
    let b = [1.5f32, 2.5];
    let c = ["x", "y", "z", "w"];
    let u = Uniforms::new(&a[..], &b[..], &c[..], unit_type_buf());
    let (x, y, z, w) = u.get([2, 1, 3, 0]);
    assert_eq!(*x, 12);
    assert_eq!(*y, 2.5);
    assert_eq!(*z, "w");
    assert_eq!(*w, ());
}

#[test]
fn unit_type_buf_has_one_element() {
    assert_eq!(unit_type_buf().len(), 1);
}

#[test]
fn rgba_bytes_roundtrip() {
    let bytes: Vec<u8> = (0..16u8).collect();
    let pixels = rgba_pixels_from_bytes(&bytes);
    assert_eq!(pixels.len(), 4);
    assert_eq!(pixels[1].rgba, [4, 5, 6, 7]);
    assert_eq!(pixels[3].rgba, [12, 13, 14, 15]);
    let mut out = vec![0u8; 16];
    write_rgba_bytes(&pixels, &mut out);
    assert_eq!(out, bytes);
}

#[test]
fn rgba_new_keeps_channels() {
    let p = RgbaU8::new([108, 182, 204, 255]);
    assert_eq!(p.rgba, [108, 182, 204, 255]);
}
