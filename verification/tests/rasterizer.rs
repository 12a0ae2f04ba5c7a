use nalvik::clip::{clip_plan, ClipVertex};
use nalvik::pipeline::render_pass::RenderPass;
use nalvik::rasterize::{add_triangle_to_pass, cull_winding, rasterize_tile, CullMode, EdgeFn, Fragment};
use nalvik::terrain::{chunk_base_pos, chunks_around, ChunkManager};
use nalvik::uniform::{unit_type_buf, Uniforms};
use nalvik::vector::{vec2, IVec2};

fn empty_pass<'a>(w: i32, h: i32) -> RenderPass<'a, (), u32, (), (), (), ()> {
    let u = unit_type_buf();
    RenderPass::new(vec2(w, h), Uniforms::new(u, u, u, u))
}

#[test]
fn render_pass_new_builds_tile_grid() {
    let rp = empty_pass(33, 16);
    assert_eq!(rp.num_tiles(), vec2(3, 1));
    assert_eq!(rp.viewport_size(), vec2(33, 16));
    for x in 0..3 {
        assert!(rp.tile_tri_indices(vec2(x, 0)).is_empty());
    }
    assert_eq!(rp.raw_triangles().len(), 0);
}

#[test]
fn add_triangle_returns_consecutive_ids() {
    let mut rp = empty_pass(16, 16);
    let info_src = empty_info();
    assert_eq!(rp.add_triangle(info_src, 100), 0);
    assert_eq!(rp.add_triangle(info_src, 101), 1);
    assert_eq!(rp.triangle_data(1).1, 101);
    assert_eq!(rp.triangle_data(0).1, 100);
}

fn empty_info() -> nalvik::rasterize::RasterizationInfo {
    let mut rp = empty_pass(16, 16);
    add_triangle_to_pass(vec2(0, 0), vec2(0, 512), vec2(512, 0), 0u32, &mut rp);
    *(&rp.triangle_data(0).0)
}

#[test]
fn add_tri_to_tile_appends_to_one_tile() {
    let mut rp = empty_pass(32, 32);
    rp.add_tri_to_tile(vec2(1, 0), 7);
    rp.add_tri_to_tile(vec2(1, 0), 9);
    rp.add_tri_to_tile(vec2(0, 1), 3);
    assert_eq!(rp.tile_tri_indices(vec2(1, 0)), &[7, 9]);
    assert_eq!(rp.tile_tri_indices(vec2(0, 1)), &[3]);
    assert!(rp.tile_tri_indices(vec2(0, 0)).is_empty());
    assert!(rp.tile_tri_indices(vec2(1, 1)).is_empty());
}

#[test]
fn raw_triangles_are_recorded() {
    let a = ();
    let u = unit_type_buf();
    let mut rp: RenderPass<(), u32, (), (), (), ()> = RenderPass::new(vec2(8, 8), Uniforms::new(u, u, u, u));
    rp.add_raw_triangle(&a, &a, &a, [0, 0, 0, 0]);
    rp.add_raw_triangle(&a, &a, &a, [1, 0, 0, 0]);
    assert_eq!(rp.raw_triangles().len(), 2);
    assert_eq!(rp.raw_triangles()[1].3, [1, 0, 0, 0]);
}

#[test]
fn edge_fn_setup_and_fill_rule() {
    let e = EdgeFn::from_edge(vec2(0, 512), vec2(512, 0));
    assert_eq!((e.dx, e.dy, e.not_top_left), (-512, -512, 1));
    assert_eq!(e.c, 512 * 512 - 1);
    assert_eq!(e.evaluate(vec2(384, 128)), -1);
    let r = EdgeFn::from_edge(vec2(512, 0), vec2(0, 512));
    assert_eq!(r.not_top_left, 0);
    assert_eq!(r.evaluate(vec2(384, 128)), 0);
}

#[test]
fn small_triangle_covers_one_pixel() {
    let mut rp = empty_pass(32, 32);
    add_triangle_to_pass(vec2(0, 0), vec2(0, 512), vec2(512, 0), 42u32, &mut rp);
    assert_eq!(rp.tile_tri_indices(vec2(0, 0)), &[0]);
    assert!(rp.tile_tri_indices(vec2(1, 0)).is_empty());
    assert!(rp.tile_tri_indices(vec2(0, 1)).is_empty());
    assert_eq!(rp.triangle_data(0).1, 42);
    assert_eq!(rp.triangle_data(0).0.norm_divisors(), [262144, 262144, 262144]);
    let frags = rasterize_tile(vec2(0, 0), &rp);
    assert_eq!(
        frags,
        vec![Fragment { x: 0, y: 0, triangle: 0, w0: 131072, w1: 65536, w2: 65536 }]
    );
}

#[test]
fn shared_edge_pixels_drawn_once() {
    let mut rp = empty_pass(32, 32);
    add_triangle_to_pass(vec2(0, 0), vec2(0, 512), vec2(512, 0), 0u32, &mut rp);
    add_triangle_to_pass(vec2(512, 512), vec2(512, 0), vec2(0, 512), 1u32, &mut rp);
    let frags = rasterize_tile(vec2(0, 0), &rp);
    let pixels: Vec<(u32, u32, u32)> = frags.iter().map(|f| (f.x, f.y, f.triangle)).collect();
    assert_eq!(pixels, vec![(0, 0, 0), (1, 0, 1), (0, 1, 1), (1, 1, 1)]);
    for f in &frags {
        assert_eq!(f.w0 + f.w1 + f.w2, 262144);
    }
}

#[test]
fn large_triangle_fills_tile_in_scanline_order() {
    let mut rp = empty_pass(40, 20);
    add_triangle_to_pass(vec2(0, 0), vec2(0, 100000), vec2(100000, 0), 0u32, &mut rp);
    for ty in 0..2 {
        for tx in 0..3 {
            assert_eq!(rp.tile_tri_indices(vec2(tx, ty)), &[0]);
        }
    }
    let frags = rasterize_tile(vec2(0, 0), &rp);
    assert_eq!(frags.len(), 256);
    assert_eq!((frags[0].x, frags[0].y), (0, 0));
    assert_eq!((frags[17].x, frags[17].y), (1, 1));
    assert_eq!((frags[255].x, frags[255].y), (15, 15));
    let edge = rasterize_tile(vec2(2, 1), &rp);
    assert_eq!(edge.len(), 8 * 4);
    assert_eq!((edge[0].x, edge[0].y), (32, 16));
    assert_eq!((edge[31].x, edge[31].y), (39, 19));
}

#[test]
fn back_facing_triangle_covers_nothing() {
    let mut rp = empty_pass(16, 16);
    add_triangle_to_pass(vec2(0, 0), vec2(2048, 0), vec2(0, 2048), 0u32, &mut rp);
    assert_eq!(rp.tile_tri_indices(vec2(0, 0)), &[0]);
    assert!(rasterize_tile(vec2(0, 0), &rp).is_empty());
}

#[test]
fn offscreen_triangle_is_not_binned() {
    let mut rp = empty_pass(32, 32);
    add_triangle_to_pass(vec2(-9000, -9000), vec2(-9000, -4000), vec2(-4000, -9000), 0u32, &mut rp);
    for ty in 0..2 {
        for tx in 0..2 {
            assert!(rp.tile_tri_indices(vec2(tx, ty)).is_empty());
        }
    }
}

#[test]
fn clip_plan_cases() {
    assert_eq!(
        clip_plan([false, false, false]),
        vec![ClipVertex::Vertex(0), ClipVertex::Vertex(1), ClipVertex::Vertex(2)]
    );
    assert!(clip_plan([true, true, true]).is_empty());
    let p1 = ClipVertex::Intersection { outside: 1, inside: 0 };
    let p2 = ClipVertex::Intersection { outside: 1, inside: 2 };
    assert_eq!(
        clip_plan([false, true, false]),
        vec![ClipVertex::Vertex(2), ClipVertex::Vertex(0), p1, p1, p2, ClipVertex::Vertex(2)]
    );
    assert_eq!(
        clip_plan([true, false, true]),
        vec![
            ClipVertex::Vertex(1),
            ClipVertex::Intersection { outside: 2, inside: 1 },
            ClipVertex::Intersection { outside: 0, inside: 1 }
        ]
    );
}

#[test]
fn chunks_around_center() {
    let keys = chunks_around(vec2(10, -3));
    assert_eq!(keys.len(), 81);
    assert_eq!(keys[0], vec2(6, -7));
    assert_eq!(keys[8], vec2(6, 1));
    assert_eq!(keys[9], vec2(7, -7));
    assert_eq!(keys[40], vec2(10, -3));
    assert_eq!(keys[80], vec2(14, 1));
    assert_eq!(chunk_base_pos(vec2(1, -2)), IVec2 { x: 8, y: -40 });
}

#[test]
fn bounding_box_starting_on_last_pixel_center_skips_that_tile() {
    // The left edge runs through the center of pixel column 15, the last
    // column of tile 0: the span of binned tiles starts at tile 1.
    let mut rp = empty_pass(32, 16);
    add_triangle_to_pass(vec2(3968, 0), vec2(3968, 8192), vec2(8192, 0), 0u32, &mut rp);
    assert!(rp.tile_tri_indices(vec2(0, 0)).is_empty());
    assert_eq!(rp.tile_tri_indices(vec2(1, 0)), &[0]);
    let frags = rasterize_tile(vec2(1, 0), &rp);
    assert!(frags.iter().all(|f| f.x >= 16));
}

#[test]
fn shared_edge_in_setup_order_owned_once() {
    // Triangles (a, b, c) and (c, b, d) share the edge b-c.
    let mut rp = empty_pass(16, 16);
    let (a, b, c, d) = (vec2(0, 0), vec2(0, 1024), vec2(1024, 0), vec2(1024, 1024));
    add_triangle_to_pass(a, b, c, 0u32, &mut rp);
    add_triangle_to_pass(c, b, d, 1u32, &mut rp);
    let frags = rasterize_tile(vec2(0, 0), &rp);
    // pixel centers on b-c: (1, 2), (2, 1) at (384, 640) and (640, 384)
    for (x, y) in [(1u32, 2u32), (2, 1)] {
        let owners: Vec<u32> = frags.iter().filter(|f| f.x == x && f.y == y).map(|f| f.triangle).collect();
        assert_eq!(owners.len(), 1);
    }
    let covered: Vec<(u32, u32)> = frags.iter().map(|f| (f.x, f.y)).collect();
    assert_eq!(covered.len(), 16);
}

#[test]
fn uniforms_in_bounds() {
    let a = [1u8, 2];
    let u = Uniforms::new(&a[..], unit_type_buf(), unit_type_buf(), unit_type_buf());
    assert!(u.in_bounds([1, 0, 0, 0]));
    assert!(!u.in_bounds([2, 0, 0, 0]));
    assert!(!u.in_bounds([0, 1, 0, 0]));
}

#[test]
fn cull_mode_picks_triangles_by_winding() {
    let (a, b, c) = (vec2(0, 0), vec2(0, 512), vec2(512, 0));
    assert_eq!(cull_winding(a, b, c, CullMode::RenderOnlyCCW), Some(false));
    assert_eq!(cull_winding(a, b, c, CullMode::RenderOnlyCW), None);
    assert_eq!(cull_winding(a, b, c, CullMode::RenderAll), Some(false));
    assert_eq!(cull_winding(a, c, b, CullMode::RenderOnlyCCW), None);
    assert_eq!(cull_winding(a, c, b, CullMode::RenderOnlyCW), Some(true));
    assert_eq!(cull_winding(a, c, b, CullMode::RenderAll), Some(true));
    let flat = vec2(1024, 0);
    assert_eq!(cull_winding(a, c, flat, CullMode::RenderAll), None);
}

#[test]
fn swapped_back_facing_triangle_is_drawn() {
    let (a, b, c) = (vec2(0, 0), vec2(2048, 0), vec2(0, 2048));
    assert_eq!(cull_winding(a, b, c, CullMode::RenderAll), Some(true));
    let mut rp = empty_pass(16, 16);
    add_triangle_to_pass(a, c, b, 0u32, &mut rp);
    assert!(!rasterize_tile(vec2(0, 0), &rp).is_empty());
}

#[test]
fn chunk_manager_loads_missing_chunks_once() {
    let center = vec2(3, -2);
    let mut chunks: ChunkManager<u32> = ChunkManager::new();
    let missing = chunks.missing_chunks(center);
    assert_eq!(missing, chunks_around(center));
    assert!(!chunks.contains(vec2(-1, -6)));
    chunks.insert(vec2(-1, -6), 7);
    chunks.insert(vec2(3, -2), 8);
    assert!(chunks.contains(vec2(-1, -6)));
    assert_eq!(chunks.get(vec2(3, -2)), Some(&8));
    assert_eq!(chunks.get(vec2(100, 100)), None);
    let missing = chunks.missing_chunks(center);
    assert_eq!(missing.len(), 79);
    assert_eq!(missing[0], vec2(-1, -5));
    assert!(!missing.contains(&vec2(3, -2)));
    for (n, key) in missing.into_iter().enumerate() {
        chunks.insert(key, 100 + n as u32);
    }
    assert!(chunks.missing_chunks(center).is_empty());
    let active = chunks.get_active_chunks(center);
    assert_eq!(active.len(), 81);
    assert_eq!(*active[0], 7);
    assert_eq!(*active[40], 8);
    assert_eq!(*active[1], 100);
    chunks.insert(vec2(3, -2), 9);
    assert_eq!(chunks.get_active_chunks(center)[40], &9);
}

#[test]
fn chunk_manager_keeps_extreme_keys_apart() {
    let mut chunks: ChunkManager<u8> = ChunkManager::new();
    chunks.insert(vec2(i32::MIN, i32::MAX), 1);
    chunks.insert(vec2(i32::MAX, i32::MIN), 2);
    chunks.insert(vec2(-1, 0), 3);
    chunks.insert(vec2(0, -1), 4);
    assert_eq!(chunks.get(vec2(i32::MIN, i32::MAX)), Some(&1));
    assert_eq!(chunks.get(vec2(i32::MAX, i32::MIN)), Some(&2));
    assert_eq!(chunks.get(vec2(-1, 0)), Some(&3));
    assert_eq!(chunks.get(vec2(0, -1)), Some(&4));
    assert_eq!(chunks.get(vec2(0, 0)), None);
}
