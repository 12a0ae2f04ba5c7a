use vstd::prelude::*;

use crate::pipeline::render_pass::{slot, tiles_for, RenderPass};
use crate::rasterize::{
    block_fragments, covers, coord_in_range, edge_fn_spec, edge_value, fragment_at, is_not_top_left,
    lemma_edge_fn_eval, lemma_product_bound, lemma_tile_window, listed_fragments, max3, min3, pixel_center, row_fragments,
    span_end_tile, span_first_tile, tile_binned, tile_extent, tile_fragments, triangle_setup_matches,
    viewport_rasterizable, Fragment, RasterizationInfo, HALF, ONE, TILE_SIZE,
};
use crate::uniform::Uniform;
use crate::vector::IVec2;

verus! {

/// Fill rule on a shared edge: for two triangles that share an edge and
/// traverse it in opposite directions (as two triangles of a consistently
/// wound mesh do), exactly one of the two edge tests passes at every point.
/// No pixel center on the shared edge is drawn twice, and none is dropped.
pub proof fn lemma_shared_edge_exclusive(a: IVec2, b: IVec2, px: int, py: int)
    requires
        coord_in_range(a),
        coord_in_range(b),
        a != b,
    ensures
        (edge_fn_spec(a, b).eval(px, py) >= 0) != (edge_fn_spec(b, a).eval(px, py) >= 0),
{
    lemma_edge_fn_eval(a, b, px, py);
    lemma_edge_fn_eval(b, a, px, py);
    assert(edge_value(b, a, px, py) == -edge_value(a, b, px, py)) by (nonlinear_arith);
}

/// `f` is the fragment of triangle `tri` (set up in `info`) at a pixel of the
/// block of `w` by `h` pixels at `(px0, py0)` whose center the triangle covers.
pub open spec fn fragment_of(f: Fragment, info: RasterizationInfo, tri: u32, px0: int, py0: int, w: int, h: int) -> bool {
    &&& f.triangle == tri
    &&& px0 <= f.x < px0 + w
    &&& py0 <= f.y < py0 + h
    &&& covers(info, f.x as int, f.y as int)
    &&& f == fragment_at(info, tri, f.x as int, f.y as int)
}

proof fn lemma_row_fragments_sound(info: RasterizationInfo, tri: u32, px0: int, py: int, n: nat)
    requires
        0 <= px0,
        px0 + n <= u32::MAX,
        0 <= py <= u32::MAX,
    ensures
        forall|k: int|
            0 <= k < row_fragments(info, tri, px0, py, n).len() ==> fragment_of(
                #[trigger] row_fragments(info, tri, px0, py, n)[k],
                info,
                tri,
                px0,
                py,
                n as int,
                1,
            ),
    decreases n,
{
    if n > 0 {
        let prev = row_fragments(info, tri, px0, py, (n - 1) as nat);
        let px = px0 + n - 1;
        lemma_row_fragments_sound(info, tri, px0, py, (n - 1) as nat);
        if covers(info, px, py) {
            let f = fragment_at(info, tri, px, py);
            assert(f.x as int == px && f.y as int == py);
            assert forall|k: int| 0 <= k < prev.push(f).len() implies fragment_of(
                #[trigger] prev.push(f)[k],
                info,
                tri,
                px0,
                py,
                n as int,
                1,
            ) by {
                if k < prev.len() {
                    assert(prev.push(f)[k] == prev[k]);
                }
            }
        }
    }
}

proof fn lemma_block_fragments_sound(info: RasterizationInfo, tri: u32, px0: int, py0: int, w: nat, h: nat)
    requires
        0 <= px0,
        px0 + w <= u32::MAX,
        0 <= py0,
        py0 + h <= u32::MAX,
    ensures
        forall|k: int|
            0 <= k < block_fragments(info, tri, px0, py0, w, h).len() ==> fragment_of(
                #[trigger] block_fragments(info, tri, px0, py0, w, h)[k],
                info,
                tri,
                px0,
                py0,
                w as int,
                h as int,
            ),
    decreases h,
{
    if h > 0 {
        let prev = block_fragments(info, tri, px0, py0, w, (h - 1) as nat);
        let row = row_fragments(info, tri, px0, py0 + h - 1, w);
        lemma_block_fragments_sound(info, tri, px0, py0, w, (h - 1) as nat);
        lemma_row_fragments_sound(info, tri, px0, py0 + h - 1, w);
        assert forall|k: int| 0 <= k < (prev + row).len() implies fragment_of(
            #[trigger] (prev + row)[k],
            info,
            tri,
            px0,
            py0,
            w as int,
            h as int,
        ) by {
            if k >= prev.len() {
                assert((prev + row)[k] == row[k - prev.len()]);
            }
        }
    }
}

proof fn lemma_listed_fragments_sound<P>(
    triangles: Seq<(RasterizationInfo, P)>,
    ids: Seq<u32>,
    px0: int,
    py0: int,
    w: nat,
    h: nat,
)
    requires
        0 <= px0,
        px0 + w <= u32::MAX,
        0 <= py0,
        py0 + h <= u32::MAX,
    ensures
        forall|k: int|
            0 <= k < listed_fragments(triangles, ids, px0, py0, w, h).len() ==> {
                let f = #[trigger] listed_fragments(triangles, ids, px0, py0, w, h)[k];
                &&& ids.contains(f.triangle)
                &&& fragment_of(f, triangles[f.triangle as int].0, f.triangle, px0, py0, w as int, h as int)
            },
    decreases ids.len(),
{
    if ids.len() > 0 {
        let prev = listed_fragments(triangles, ids.drop_last(), px0, py0, w, h);
        let block = block_fragments(triangles[ids.last() as int].0, ids.last(), px0, py0, w, h);
        lemma_listed_fragments_sound(triangles, ids.drop_last(), px0, py0, w, h);
        lemma_block_fragments_sound(triangles[ids.last() as int].0, ids.last(), px0, py0, w, h);
        assert forall|k: int| 0 <= k < (prev + block).len() implies {
            let f = #[trigger] (prev + block)[k];
            &&& ids.contains(f.triangle)
            &&& fragment_of(f, triangles[f.triangle as int].0, f.triangle, px0, py0, w as int, h as int)
        } by {
            if k >= prev.len() {
                assert((prev + block)[k] == block[k - prev.len()]);
                assert(ids[ids.len() - 1] == ids.last());
            } else {
                let f = prev[k];
                let j = choose|j: int| 0 <= j < ids.drop_last().len() && ids.drop_last()[j] == f.triangle;
                assert(ids[j] == f.triangle);
            }
        }
    }
}

/// Pixel `(x1, y1)` comes before pixel `(x2, y2)` in scanline order.
pub open spec fn scanline_before(x1: int, y1: int, x2: int, y2: int) -> bool {
    y1 < y2 || (y1 == y2 && x1 < x2)
}

proof fn lemma_row_fragments_ordered(info: RasterizationInfo, tri: u32, px0: int, py: int, n: nat)
    requires
        0 <= px0,
        px0 + n <= u32::MAX,
        0 <= py <= u32::MAX,
    ensures
        forall|k1: int, k2: int|
            0 <= k1 < k2 < row_fragments(info, tri, px0, py, n).len() ==> scanline_before(
                #[trigger] row_fragments(info, tri, px0, py, n)[k1].x as int,
                row_fragments(info, tri, px0, py, n)[k1].y as int,
                #[trigger] row_fragments(info, tri, px0, py, n)[k2].x as int,
                row_fragments(info, tri, px0, py, n)[k2].y as int,
            ),
    decreases n,
{
    if n > 0 {
        let prev = row_fragments(info, tri, px0, py, (n - 1) as nat);
        let px = px0 + n - 1;
        lemma_row_fragments_ordered(info, tri, px0, py, (n - 1) as nat);
        lemma_row_fragments_sound(info, tri, px0, py, (n - 1) as nat);
        if covers(info, px, py) {
            let f = fragment_at(info, tri, px, py);
            let all = prev.push(f);
            assert forall|k1: int, k2: int| 0 <= k1 < k2 < all.len() implies scanline_before(
                #[trigger] all[k1].x as int,
                all[k1].y as int,
                #[trigger] all[k2].x as int,
                all[k2].y as int,
            ) by {
                assert(all[k1] == prev[k1]);
                if k2 < prev.len() {
                    assert(all[k2] == prev[k2]);
                } else {
                    assert(fragment_of(prev[k1], info, tri, px0, py, (n - 1) as int, 1));
                }
            }
        }
    }
}

proof fn lemma_block_fragments_ordered(info: RasterizationInfo, tri: u32, px0: int, py0: int, w: nat, h: nat)
    requires
        0 <= px0,
        px0 + w <= u32::MAX,
        0 <= py0,
        py0 + h <= u32::MAX,
    ensures
        forall|k1: int, k2: int|
            0 <= k1 < k2 < block_fragments(info, tri, px0, py0, w, h).len() ==> scanline_before(
                #[trigger] block_fragments(info, tri, px0, py0, w, h)[k1].x as int,
                block_fragments(info, tri, px0, py0, w, h)[k1].y as int,
                #[trigger] block_fragments(info, tri, px0, py0, w, h)[k2].x as int,
                block_fragments(info, tri, px0, py0, w, h)[k2].y as int,
            ),
    decreases h,
{
    if h > 0 {
        let prev = block_fragments(info, tri, px0, py0, w, (h - 1) as nat);
        let row = row_fragments(info, tri, px0, py0 + h - 1, w);
        let all = prev + row;
        lemma_block_fragments_ordered(info, tri, px0, py0, w, (h - 1) as nat);
        lemma_block_fragments_sound(info, tri, px0, py0, w, (h - 1) as nat);
        lemma_row_fragments_ordered(info, tri, px0, py0 + h - 1, w);
        lemma_row_fragments_sound(info, tri, px0, py0 + h - 1, w);
        assert forall|k1: int, k2: int| 0 <= k1 < k2 < all.len() implies scanline_before(
            #[trigger] all[k1].x as int,
            all[k1].y as int,
            #[trigger] all[k2].x as int,
            all[k2].y as int,
        ) by {
            if k2 < prev.len() {
                assert(all[k1] == prev[k1] && all[k2] == prev[k2]);
            } else if k1 >= prev.len() {
                assert(all[k1] == row[k1 - prev.len()] && all[k2] == row[k2 - prev.len()]);
            } else {
                assert(all[k1] == prev[k1] && all[k2] == row[k2 - prev.len()]);
                assert(fragment_of(prev[k1], info, tri, px0, py0, w as int, (h - 1) as int));
                assert(fragment_of(row[k2 - prev.len()], info, tri, px0, py0 + h - 1, w as int, 1));
            }
        }
    }
}

/// Rasterizing one triangle over a block of pixels yields its fragments in
/// scanline order, so no pixel twice: a triangle is never blended twice into
/// the same pixel.
pub proof fn lemma_triangle_fragments_distinct(
    info: RasterizationInfo,
    tri: u32,
    px0: int,
    py0: int,
    w: nat,
    h: nat,
    k1: int,
    k2: int,
)
    requires
        0 <= px0,
        px0 + w <= u32::MAX,
        0 <= py0,
        py0 + h <= u32::MAX,
        0 <= k1 < k2 < block_fragments(info, tri, px0, py0, w, h).len(),
    ensures
        scanline_before(
            block_fragments(info, tri, px0, py0, w, h)[k1].x as int,
            block_fragments(info, tri, px0, py0, w, h)[k1].y as int,
            block_fragments(info, tri, px0, py0, w, h)[k2].x as int,
            block_fragments(info, tri, px0, py0, w, h)[k2].y as int,
        ),
        (block_fragments(info, tri, px0, py0, w, h)[k1].x, block_fragments(info, tri, px0, py0, w, h)[k1].y)
            != (block_fragments(info, tri, px0, py0, w, h)[k2].x, block_fragments(info, tri, px0, py0, w, h)[k2].y),
{
    lemma_block_fragments_ordered(info, tri, px0, py0, w, h);
}

/// Every fragment `rasterize_tile` produces is a pixel of the tile, inside
/// the viewport, whose center is covered by a triangle binned to the tile,
/// and carries that triangle's edge values at the center.
pub proof fn lemma_tile_fragments_sound<'a, Vi: Sync, P, U0: Uniform, U1: Uniform, U2: Uniform, U3: Uniform>(
    render_pass: RenderPass<'a, Vi, P, U0, U1, U2, U3>,
    tile: IVec2,
    k: int,
)
    requires
        render_pass.wf(),
        render_pass.valid_tile(tile),
        viewport_rasterizable(render_pass.viewport()),
        0 <= k < tile_fragments(render_pass, tile).len(),
    ensures
        ({
            let f = tile_fragments(render_pass, tile)[k];
            &&& render_pass.tile_lists()[render_pass.tile_slot(tile)].contains(f.triangle)
            &&& tile.x * TILE_SIZE <= f.x < (tile.x + 1) * TILE_SIZE
            &&& tile.y * TILE_SIZE <= f.y < (tile.y + 1) * TILE_SIZE
            &&& f.x < render_pass.viewport().x
            &&& f.y < render_pass.viewport().y
            &&& covers(render_pass.triangles()[f.triangle as int].0, f.x as int, f.y as int)
            &&& f == fragment_at(render_pass.triangles()[f.triangle as int].0, f.triangle, f.x as int, f.y as int)
        }),
{
    render_pass.lemma_tile_counts();
    lemma_tile_window(tile, render_pass.viewport());
    let vp = render_pass.viewport();
    lemma_listed_fragments_sound(
        render_pass.triangles(),
        render_pass.tile_lists()[render_pass.tile_slot(tile)],
        tile.x * TILE_SIZE,
        tile.y * TILE_SIZE,
        tile_extent(tile.x as int, vp.x as int) as nat,
        tile_extent(tile.y as int, vp.y as int) as nat,
    );
}

/// The three edge values at any point add up to twice the signed area of the
/// triangle.
proof fn lemma_edge_values_sum(v0: IVec2, v1: IVec2, v2: IVec2, px: int, py: int)
    ensures
        edge_value(v1, v2, px, py) + edge_value(v2, v0, px, py) + edge_value(v0, v1, px, py)
            == edge_value(v1, v2, v0.x as int, v0.y as int),
        edge_value(v1, v2, v0.x as int, v0.y as int) == edge_value(v2, v0, v1.x as int, v1.y as int),
        edge_value(v1, v2, v0.x as int, v0.y as int) == edge_value(v0, v1, v2.x as int, v2.y as int),
{
    lemma_edge_values_relative(v0, v1, v2, px, py);
    let (ax, ay) = (v0.x - px, v0.y - py);
    let (bx, by) = (v1.x - px, v1.y - py);
    let (cx, cy) = (v2.x - px, v2.y - py);
    let a0 = edge_value(v1, v2, v0.x as int, v0.y as int);
    let a1 = edge_value(v2, v0, v1.x as int, v1.y as int);
    let a2 = edge_value(v0, v1, v2.x as int, v2.y as int);
    assert(a0 == (cy - by) * (ax - bx) + (bx - cx) * (ay - by));
    assert(a1 == (ay - cy) * (bx - cx) + (cx - ax) * (by - cy));
    assert(a2 == (by - ay) * (cx - ax) + (ax - bx) * (cy - ay));
    lemma_expand_product(cy, by, ax, bx);
    lemma_expand_product(bx, cx, ay, by);
    lemma_expand_product(ay, cy, bx, cx);
    lemma_expand_product(cx, ax, by, cy);
    lemma_expand_product(by, ay, cx, ax);
    lemma_expand_product(ax, bx, cy, ay);
}

/// Edge values are affine in the point: at a point `m * p == (m - k) * q + k * r`
/// the edge value, times `m`, is the same combination of the values at `q` and
/// `r`.
proof fn lemma_edge_value_affine(a: IVec2, b: IVec2, q: IVec2, r: IVec2, px: int, py: int, k: int, m: int)
    requires
        m * px == (m - k) * q.x + k * r.x,
        m * py == (m - k) * q.y + k * r.y,
    ensures
        m * edge_value(a, b, px, py) == (m - k) * edge_value(a, b, q.x as int, q.y as int) + k
            * edge_value(a, b, r.x as int, r.y as int),
{
    let (dx, dy) = (b.y - a.y, a.x - b.x);
    lemma_affine_term(dx, px, q.x as int, r.x as int, a.x as int, k, m);
    lemma_affine_term(dy, py, q.y as int, r.y as int, a.y as int, k, m);
    lemma_distribute(m, dx * (px - a.x), dy * (py - a.y));
    lemma_distribute(m - k, dx * (q.x - a.x), dy * (q.y - a.y));
    lemma_distribute(k, dx * (r.x - a.x), dy * (r.y - a.y));
}

/// `s * (u + v) == s * u + s * v`.
proof fn lemma_distribute(s: int, u: int, v: int)
    ensures
        s * (u + v) == s * u + s * v,
{
    assert(s * (u + v) == s * u + s * v) by (nonlinear_arith);
}

/// One term of an edge value, `d * (p - o)`, is affine in `p`.
proof fn lemma_affine_term(d: int, p: int, q: int, r: int, o: int, k: int, m: int)
    requires
        m * p == (m - k) * q + k * r,
    ensures
        m * (d * (p - o)) == (m - k) * (d * (q - o)) + k * (d * (r - o)),
{
    assert(m * (d * (p - o)) == d * (m * p) - d * (m * o)) by (nonlinear_arith);
    assert(d * (m * p) == d * ((m - k) * q + k * r)) by (nonlinear_arith)
        requires
            m * p == (m - k) * q + k * r,
    ;
    assert(d * ((m - k) * q + k * r) == (m - k) * (d * q) + k * (d * r)) by (nonlinear_arith);
    assert(d * (m * o) == (m - k) * (d * o) + k * (d * o)) by (nonlinear_arith);
    assert((m - k) * (d * (q - o)) == (m - k) * (d * q) - (m - k) * (d * o)) by (nonlinear_arith);
    assert(k * (d * (r - o)) == k * (d * r) - k * (d * o)) by (nonlinear_arith);
}

/// A positive multiple of an integer that is positive multiple of a positive
/// integer is at least one.
proof fn lemma_positive_from_multiple(m: int, e: int, j: int, area: int)
    requires
        m > 0,
        j > 0,
        area > 0,
        m * e == j * area,
    ensures
        e >= 1,
{
    assert(e >= 1) by (nonlinear_arith)
        requires
            m > 0,
            j > 0,
            area > 0,
            m * e == j * area,
    ;
}

/// Pixels on a shared edge go to exactly one triangle: for two front-facing
/// triangles `a, b, c` and `c, b, d` sharing the edge `b-c` (so `a` and `d`
/// lie on opposite sides of it), a pixel center strictly inside the segment
/// from `b` to `c` (the point `((m - k) * b + k * c) / m` with `0 < k < m`) is
/// covered by exactly one of the two.
pub proof fn lemma_shared_edge_owned_once(
    info1: RasterizationInfo,
    info2: RasterizationInfo,
    a: IVec2,
    b: IVec2,
    c: IVec2,
    d: IVec2,
    px: int,
    py: int,
    k: int,
    m: int,
)
    requires
        triangle_setup_matches(info1, a, b, c),
        triangle_setup_matches(info2, c, b, d),
        coord_in_range(a),
        coord_in_range(b),
        coord_in_range(c),
        coord_in_range(d),
        edge_value(b, c, a.x as int, a.y as int) > 0,
        edge_value(b, d, c.x as int, c.y as int) > 0,
        0 < k < m,
        m * pixel_center(px) == (m - k) * b.x + k * c.x,
        m * pixel_center(py) == (m - k) * b.y + k * c.y,
    ensures
        covers(info1, px, py) != covers(info2, px, py),
{
    let cx = pixel_center(px);
    let cy = pixel_center(py);
    // the triangles' areas, as edge values at their vertices
    lemma_edge_values_sum(a, b, c, cx, cy);
    lemma_edge_values_sum(c, b, d, cx, cy);
    let area1 = edge_value(b, c, a.x as int, a.y as int);
    let area2 = edge_value(b, d, c.x as int, c.y as int);
    assert(b != c) by {
        if b == c {
            assert((c.y - b.y) * (a.x - b.x) == 0 && (b.x - c.x) * (a.y - b.y) == 0) by (nonlinear_arith)
                requires
                    c.y - b.y == 0,
                    b.x - c.x == 0,
            ;
        }
    }
    // edges of the first triangle other than b-c: c -> a and a -> b
    lemma_edge_value_affine(c, a, b, c, cx, cy, k, m);
    lemma_edge_value_affine(a, b, b, c, cx, cy, k, m);
    assert(edge_value(c, a, c.x as int, c.y as int) == 0) by (nonlinear_arith);
    assert(edge_value(a, b, b.x as int, b.y as int) == 0) by (nonlinear_arith);
    lemma_positive_from_multiple(m, edge_value(c, a, cx, cy), m - k, area1);
    lemma_positive_from_multiple(m, edge_value(a, b, cx, cy), k, area1);
    // edges of the second triangle other than c-b: b -> d and d -> c
    lemma_edge_value_affine(b, d, b, c, cx, cy, k, m);
    lemma_edge_value_affine(d, c, b, c, cx, cy, k, m);
    assert(edge_value(b, d, b.x as int, b.y as int) == 0) by (nonlinear_arith);
    assert(edge_value(d, c, c.x as int, c.y as int) == 0) by (nonlinear_arith);
    lemma_positive_from_multiple(m, edge_value(b, d, cx, cy), k, area2);
    lemma_positive_from_multiple(m, edge_value(d, c, cx, cy), m - k, area2);
    // the biases are 0 or 1, so the four other edge tests pass
    lemma_edge_fn_eval(c, a, cx, cy);
    lemma_edge_fn_eval(a, b, cx, cy);
    lemma_edge_fn_eval(b, d, cx, cy);
    lemma_edge_fn_eval(d, c, cx, cy);
    // and exactly one of the two tests on the shared edge passes
    lemma_shared_edge_exclusive(b, c, cx, cy);
}

/// `(p - q) * (r - s)` multiplied out.
proof fn lemma_expand_product(p: int, q: int, r: int, s: int)
    ensures
        (p - q) * (r - s) == p * r - p * s - q * r + q * s,
        p * r == r * p,
        p * s == s * p,
        q * r == r * q,
        q * s == s * q,
{
    assert((p - q) * (r - s) == p * r - p * s - q * r + q * s) by (nonlinear_arith);
    assert(p * r == r * p && p * s == s * p && q * r == r * q && q * s == s * q) by (nonlinear_arith);
}

/// The edge values at `(px, py)` as cross products of the vertices taken
/// relative to that point.
proof fn lemma_edge_values_relative(v0: IVec2, v1: IVec2, v2: IVec2, px: int, py: int)
    ensures
        edge_value(v1, v2, px, py) == (v2.x - px) * (v1.y - py) - (v1.x - px) * (v2.y - py),
        edge_value(v2, v0, px, py) == (v0.x - px) * (v2.y - py) - (v2.x - px) * (v0.y - py),
        edge_value(v0, v1, px, py) == (v1.x - px) * (v0.y - py) - (v0.x - px) * (v1.y - py),
{
    let (ax, ay) = (v0.x - px, v0.y - py);
    let (bx, by) = (v1.x - px, v1.y - py);
    let (cx, cy) = (v2.x - px, v2.y - py);
    let e0 = edge_value(v1, v2, px, py);
    let e1 = edge_value(v2, v0, px, py);
    let e2 = edge_value(v0, v1, px, py);
    assert(e0 == cx * by - bx * cy) by (nonlinear_arith)
        requires
            e0 == (cy - by) * (0 - bx) + (bx - cx) * (0 - by),
    ;
    assert(e1 == ax * cy - cx * ay) by (nonlinear_arith)
        requires
            e1 == (ay - cy) * (0 - cx) + (cx - ax) * (0 - cy),
    ;
    assert(e2 == bx * ay - ax * by) by (nonlinear_arith)
        requires
            e2 == (by - ay) * (0 - ax) + (ax - bx) * (0 - ay),
    ;
}

/// Barycentric coordinates sum to one: at every pixel center the three
/// fragment weights (edge values without the fill-rule bias) add up to the
/// triangle's barycentric divisor, which is the same for all three edges.
pub proof fn lemma_weights_sum_to_divisor(info: RasterizationInfo, v0: IVec2, v1: IVec2, v2: IVec2, px: int, py: int)
    requires
        triangle_setup_matches(info, v0, v1, v2),
        coord_in_range(v0),
        coord_in_range(v1),
        coord_in_range(v2),
    ensures
        (info.edges()[0].eval(px, py) + info.edges()[0].not_top_left) + (info.edges()[1].eval(px, py)
            + info.edges()[1].not_top_left) + (info.edges()[2].eval(px, py)
            + info.edges()[2].not_top_left) == info.divisors()[0],
        info.divisors()[0] == info.divisors()[1],
        info.divisors()[1] == info.divisors()[2],
{
    lemma_edge_fn_eval(v1, v2, px, py);
    lemma_edge_fn_eval(v2, v0, px, py);
    lemma_edge_fn_eval(v0, v1, px, py);
    lemma_edge_values_sum(v0, v1, v2, px, py);
}

/// The signed area times a point's coordinate is the edge-value-weighted sum
/// of the vertices' coordinates (barycentric reconstruction).
proof fn lemma_barycentric_x(v0: IVec2, v1: IVec2, v2: IVec2, px: int, py: int)
    ensures
        edge_value(v1, v2, v0.x as int, v0.y as int) * px == edge_value(v1, v2, px, py) * v0.x
            + edge_value(v2, v0, px, py) * v1.x + edge_value(v0, v1, px, py) * v2.x,
        edge_value(v1, v2, v0.x as int, v0.y as int) * py == edge_value(v1, v2, px, py) * v0.y
            + edge_value(v2, v0, px, py) * v1.y + edge_value(v0, v1, px, py) * v2.y,
{
    let (ax, ay) = (v0.x - px, v0.y - py);
    let (bx, by) = (v1.x - px, v1.y - py);
    let (cx, cy) = (v2.x - px, v2.y - py);
    let e0 = edge_value(v1, v2, px, py);
    let e1 = edge_value(v2, v0, px, py);
    let e2 = edge_value(v0, v1, px, py);
    lemma_edge_values_relative(v0, v1, v2, px, py);
    lemma_cross_weights_vanish(ax, ay, bx, by, cx, cy);
    lemma_cross_weights_vanish_y(ax, ay, bx, by, cx, cy);
    lemma_edge_values_sum(v0, v1, v2, px, py);
    let area = edge_value(v1, v2, v0.x as int, v0.y as int);
    lemma_weighted_shift(e0, e1, e2, v0.x as int, v1.x as int, v2.x as int, px, area);
    lemma_weighted_shift(e0, e1, e2, v0.y as int, v1.y as int, v2.y as int, py, area);
}

/// The cross-product weights of three points balance them around the origin.
proof fn lemma_cross_weights_vanish(ax: int, ay: int, bx: int, by: int, cx: int, cy: int)
    ensures
        (cx * by - bx * cy) * ax + (ax * cy - cx * ay) * bx + (bx * ay - ax * by) * cx == 0,
{
    assert((cx * by - bx * cy) * ax == ax * by * cx - ax * bx * cy) by (nonlinear_arith);
    assert((ax * cy - cx * ay) * bx == ax * bx * cy - ay * bx * cx) by (nonlinear_arith);
    assert((bx * ay - ax * by) * cx == ay * bx * cx - ax * by * cx) by (nonlinear_arith);
}

/// The same balance in the second coordinate.
proof fn lemma_cross_weights_vanish_y(ax: int, ay: int, bx: int, by: int, cx: int, cy: int)
    ensures
        (cx * by - bx * cy) * ay + (ax * cy - cx * ay) * by + (bx * ay - ax * by) * cy == 0,
{
    assert((cx * by - bx * cy) * ay == ay * by * cx - ay * bx * cy) by (nonlinear_arith);
    assert((ax * cy - cx * ay) * by == ax * by * cy - ay * by * cx) by (nonlinear_arith);
    assert((bx * ay - ax * by) * cy == ay * bx * cy - ax * by * cy) by (nonlinear_arith);
}

/// Weights that balance around `p` reconstruct `p` times their sum.
proof fn lemma_weighted_shift(e0: int, e1: int, e2: int, a: int, b: int, c: int, p: int, area: int)
    requires
        e0 * (a - p) + e1 * (b - p) + e2 * (c - p) == 0,
        e0 + e1 + e2 == area,
    ensures
        area * p == e0 * a + e1 * b + e2 * c,
{
    assert(e0 * (a - p) == e0 * a - e0 * p) by (nonlinear_arith);
    assert(e1 * (b - p) == e1 * b - e1 * p) by (nonlinear_arith);
    assert(e2 * (c - p) == e2 * c - e2 * p) by (nonlinear_arith);
    assert(area * p == e0 * p + e1 * p + e2 * p) by (nonlinear_arith)
        requires
            e0 + e1 + e2 == area,
    ;
}

/// With all three fill-rule biases zero, the three vertices coincide: a
/// triangle with at least two distinct vertices has an edge that is neither
/// top nor left.
proof fn lemma_all_top_left_degenerate(v0: IVec2, v1: IVec2, v2: IVec2)
    requires
        !is_not_top_left(v1, v2),
        !is_not_top_left(v2, v0),
        !is_not_top_left(v0, v1),
    ensures
        v0 == v1 && v1 == v2,
{
}

/// A pixel center covered by a triangle with at least two distinct vertices
/// lies within the triangle's bounding box.
proof fn lemma_center_in_bounding_box(info: RasterizationInfo, v0: IVec2, v1: IVec2, v2: IVec2, px: int, py: int)
    requires
        triangle_setup_matches(info, v0, v1, v2),
        coord_in_range(v0),
        coord_in_range(v1),
        coord_in_range(v2),
        !(v0 == v1 && v1 == v2),
        covers(info, px, py),
    ensures
        min3(v0.x as int, v1.x as int, v2.x as int) <= pixel_center(px) <= max3(v0.x as int, v1.x as int, v2.x as int),
        min3(v0.y as int, v1.y as int, v2.y as int) <= pixel_center(py) <= max3(v0.y as int, v1.y as int, v2.y as int),
{
    let cx = pixel_center(px);
    let cy = pixel_center(py);
    lemma_edge_fn_eval(v1, v2, cx, cy);
    lemma_edge_fn_eval(v2, v0, cx, cy);
    lemma_edge_fn_eval(v0, v1, cx, cy);
    let e0 = edge_value(v1, v2, cx, cy);
    let e1 = edge_value(v2, v0, cx, cy);
    let e2 = edge_value(v0, v1, cx, cy);
    if !is_not_top_left(v1, v2) && !is_not_top_left(v2, v0) && !is_not_top_left(v0, v1) {
        lemma_all_top_left_degenerate(v0, v1, v2);
    }
    assert(e0 >= 0 && e1 >= 0 && e2 >= 0);
    assert(e0 + e1 + e2 >= 1);
    lemma_edge_values_sum(v0, v1, v2, cx, cy);
    lemma_barycentric_x(v0, v1, v2, cx, cy);
    let area = edge_value(v1, v2, v0.x as int, v0.y as int);
    lemma_hull_bound(e0, e1, e2, area, v0.x as int, v1.x as int, v2.x as int, cx);
    lemma_hull_bound(e0, e1, e2, area, v0.y as int, v1.y as int, v2.y as int, cy);
}

/// A weighted average with non-negative weights lies between the smallest
/// and the largest value.
proof fn lemma_hull_bound(e0: int, e1: int, e2: int, area: int, a: int, b: int, c: int, p: int)
    requires
        e0 >= 0,
        e1 >= 0,
        e2 >= 0,
        area == e0 + e1 + e2,
        area >= 1,
        area * p == e0 * a + e1 * b + e2 * c,
    ensures
        min3(a, b, c) <= p <= max3(a, b, c),
{
    let lo = min3(a, b, c);
    let hi = max3(a, b, c);
    assert(area * lo <= area * p) by (nonlinear_arith)
        requires
            e0 >= 0,
            e1 >= 0,
            e2 >= 0,
            lo <= a,
            lo <= b,
            lo <= c,
            area == e0 + e1 + e2,
            area * p == e0 * a + e1 * b + e2 * c,
    ;
    assert(area * p <= area * hi) by (nonlinear_arith)
        requires
            e0 >= 0,
            e1 >= 0,
            e2 >= 0,
            a <= hi,
            b <= hi,
            c <= hi,
            area == e0 + e1 + e2,
            area * p == e0 * a + e1 * b + e2 * c,
    ;
    assert(lo <= p <= hi) by (nonlinear_arith)
        requires
            area >= 1,
            area * lo <= area * p,
            area * p <= area * hi,
    ;
}

/// The tile holding pixel `p` lies in the span binned for a bounding box
/// `[lo, hi]` containing the pixel's center, unless the box starts exactly
/// at the center of the last pixel of a tile.
proof fn lemma_span_contains(lo: int, hi: int, extent: int, p: int)
    requires
        lo <= pixel_center(p) <= hi,
        0 <= p < extent,
        extent * ONE + TILE_SIZE * ONE - HALF <= i32::MAX,
        !(lo == pixel_center(p) && p % (TILE_SIZE as int) == TILE_SIZE - 1),
    ensures
        span_first_tile(lo) <= p / (TILE_SIZE as int) < span_end_tile(hi, extent),
        p / (TILE_SIZE as int) < tiles_for(extent),
{
    let q = p / 16;
    let r = p % 16;
    vstd::arithmetic::div_mod::lemma_fundamental_div_mod(p, 16);
    assert(p == 16 * q + r && 0 <= r < 16);
    let lo2 = if lo < 0 { 0 } else { lo };
    // first tile
    if lo2 < pixel_center(p) {
        assert(lo2 + HALF <= 4096 * q + 4095);
    } else {
        assert(r < 15);
        assert(lo2 + HALF <= 4096 * q + 3840);
    }
    let first = (lo2 + HALF) / 4096;
    vstd::arithmetic::div_mod::lemma_fundamental_div_mod(lo2 + HALF, 4096);
    assert(first <= q) by (nonlinear_arith)
        requires
            lo2 + HALF == 4096 * first + (lo2 + HALF) % 4096,
            0 <= (lo2 + HALF) % 4096 < 4096,
            lo2 + HALF <= 4096 * q + 4095,
    ;
    // last tile
    let clipped = if hi < extent * ONE { hi } else { extent * ONE };
    let num = clipped + TILE_SIZE * ONE - HALF;
    assert(num >= 4096 * q + 4096);
    let end = num / 4096;
    vstd::arithmetic::div_mod::lemma_fundamental_div_mod(num, 4096);
    assert(end >= q + 1) by (nonlinear_arith)
        requires
            num == 4096 * end + num % 4096,
            0 <= num % 4096 < 4096,
            num >= 4096 * q + 4096,
    ;
    // grid
    let n = (extent + 15) / 16;
    vstd::arithmetic::div_mod::lemma_fundamental_div_mod(extent + 15, 16);
    assert(q < n) by (nonlinear_arith)
        requires
            extent + 15 == 16 * n + (extent + 15) % 16,
            0 <= (extent + 15) % 16 < 16,
            p == 16 * q + r,
            0 <= r < 16,
            p < extent,
    ;
}

/// Back faces are culled: a triangle whose vertices wind negatively (or that
/// is flat without all three vertices coinciding) covers no pixel center.
pub proof fn lemma_back_facing_covers_nothing(info: RasterizationInfo, v0: IVec2, v1: IVec2, v2: IVec2, px: int, py: int)
    requires
        triangle_setup_matches(info, v0, v1, v2),
        coord_in_range(v0),
        coord_in_range(v1),
        coord_in_range(v2),
        edge_value(v1, v2, v0.x as int, v0.y as int) <= 0,
        !(v0 == v1 && v1 == v2),
    ensures
        !covers(info, px, py),
{
    if covers(info, px, py) {
        let cx = pixel_center(px);
        let cy = pixel_center(py);
        lemma_edge_fn_eval(v1, v2, cx, cy);
        lemma_edge_fn_eval(v2, v0, cx, cy);
        lemma_edge_fn_eval(v0, v1, cx, cy);
        lemma_edge_values_sum(v0, v1, v2, cx, cy);
        if !is_not_top_left(v1, v2) && !is_not_top_left(v2, v0) && !is_not_top_left(v0, v1) {
            lemma_all_top_left_degenerate(v0, v1, v2);
        }
    }
}

/// Binning never misses a pixel: the tile holding any pixel of the viewport
/// whose center a triangle covers is binned for that triangle. Left out:
/// triangles whose three vertices coincide (their edge functions are zero, so
/// they cover every pixel of the one tile their box touches), and boxes that
/// start exactly at the center of the last pixel column (or row) of a tile
/// (the rounding in the span's first tile then skips that tile).
pub proof fn lemma_covered_pixel_binned(
    info: RasterizationInfo,
    v0: IVec2,
    v1: IVec2,
    v2: IVec2,
    viewport: IVec2,
    px: int,
    py: int,
)
    requires
        triangle_setup_matches(info, v0, v1, v2),
        coord_in_range(v0),
        coord_in_range(v1),
        coord_in_range(v2),
        viewport_rasterizable(viewport),
        0 <= px < viewport.x,
        0 <= py < viewport.y,
        covers(info, px, py),
        !(v0 == v1 && v1 == v2),
        !(min3(v0.x as int, v1.x as int, v2.x as int) == pixel_center(px) && px % (TILE_SIZE as int)
            == TILE_SIZE - 1),
        !(min3(v0.y as int, v1.y as int, v2.y as int) == pixel_center(py) && py % (TILE_SIZE as int)
            == TILE_SIZE - 1),
    ensures
        tile_binned(
            v0,
            v1,
            v2,
            viewport,
            IVec2 { x: tiles_for(viewport.x as int) as i32, y: tiles_for(viewport.y as int) as i32 },
            px / (TILE_SIZE as int),
            py / (TILE_SIZE as int),
        ),
{
    lemma_center_in_bounding_box(info, v0, v1, v2, px, py);
    lemma_span_contains(min3(v0.x as int, v1.x as int, v2.x as int), max3(v0.x as int, v1.x as int, v2.x as int), viewport.x as int, px);
    lemma_span_contains(min3(v0.y as int, v1.y as int, v2.y as int), max3(v0.y as int, v1.y as int, v2.y as int), viewport.y as int, py);
    assert(0 <= tiles_for(viewport.x as int) <= i32::MAX);
    assert(0 <= tiles_for(viewport.y as int) <= i32::MAX);
}

proof fn lemma_row_fragments_complete(info: RasterizationInfo, tri: u32, px0: int, py: int, n: nat, px: int)
    requires
        px0 <= px < px0 + n,
        covers(info, px, py),
    ensures
        row_fragments(info, tri, px0, py, n).contains(fragment_at(info, tri, px, py)),
    decreases n,
{
    let prev = row_fragments(info, tri, px0, py, (n - 1) as nat);
    if px < px0 + n - 1 {
        lemma_row_fragments_complete(info, tri, px0, py, (n - 1) as nat, px);
        let k = choose|k: int| 0 <= k < prev.len() && prev[k] == fragment_at(info, tri, px, py);
        let last = px0 + n - 1;
        if covers(info, last, py) {
            assert(prev.push(fragment_at(info, tri, last, py))[k] == prev[k]);
        }
    } else {
        assert(prev.push(fragment_at(info, tri, px, py))[prev.len() as int] == fragment_at(info, tri, px, py));
    }
}

proof fn lemma_block_fragments_complete(
    info: RasterizationInfo,
    tri: u32,
    px0: int,
    py0: int,
    w: nat,
    h: nat,
    px: int,
    py: int,
)
    requires
        px0 <= px < px0 + w,
        py0 <= py < py0 + h,
        covers(info, px, py),
    ensures
        block_fragments(info, tri, px0, py0, w, h).contains(fragment_at(info, tri, px, py)),
    decreases h,
{
    let prev = block_fragments(info, tri, px0, py0, w, (h - 1) as nat);
    let row = row_fragments(info, tri, px0, py0 + h - 1, w);
    let f = fragment_at(info, tri, px, py);
    if py < py0 + h - 1 {
        lemma_block_fragments_complete(info, tri, px0, py0, w, (h - 1) as nat, px, py);
        let k = choose|k: int| 0 <= k < prev.len() && prev[k] == f;
        assert((prev + row)[k] == f);
    } else {
        lemma_row_fragments_complete(info, tri, px0, py, w, px);
        let k = choose|k: int| 0 <= k < row.len() && row[k] == f;
        assert((prev + row)[prev.len() + k] == f);
    }
}

proof fn lemma_listed_fragments_complete<P>(
    triangles: Seq<(RasterizationInfo, P)>,
    ids: Seq<u32>,
    px0: int,
    py0: int,
    w: nat,
    h: nat,
    tri: u32,
    px: int,
    py: int,
)
    requires
        ids.contains(tri),
        px0 <= px < px0 + w,
        py0 <= py < py0 + h,
        covers(triangles[tri as int].0, px, py),
    ensures
        listed_fragments(triangles, ids, px0, py0, w, h).contains(
            fragment_at(triangles[tri as int].0, tri, px, py),
        ),
    decreases ids.len(),
{
    let prev = listed_fragments(triangles, ids.drop_last(), px0, py0, w, h);
    let block = block_fragments(triangles[ids.last() as int].0, ids.last(), px0, py0, w, h);
    let f = fragment_at(triangles[tri as int].0, tri, px, py);
    if ids.last() == tri {
        lemma_block_fragments_complete(triangles[tri as int].0, tri, px0, py0, w, h, px, py);
        let k = choose|k: int| 0 <= k < block.len() && block[k] == f;
        assert((prev + block)[prev.len() + k] == f);
    } else {
        let j = choose|j: int| 0 <= j < ids.len() && ids[j] == tri;
        assert(j < ids.len() - 1);
        assert(ids.drop_last()[j] == tri);
        lemma_listed_fragments_complete(triangles, ids.drop_last(), px0, py0, w, h, tri, px, py);
        let k = choose|k: int| 0 <= k < prev.len() && prev[k] == f;
        assert((prev + block)[k] == f);
    }
}

/// No holes: once a triangle has been binned (its id is in the list of every
/// tile `tile_binned` names, as `add_triangle_to_pass` leaves it), rasterizing
/// the tile that holds a pixel of the viewport whose center the triangle
/// covers produces that pixel's fragment for the triangle. Left out are the
/// inputs `lemma_covered_pixel_binned` leaves out.
pub proof fn lemma_covered_pixel_rasterized<'a, Vi: Sync, P, U0: Uniform, U1: Uniform, U2: Uniform, U3: Uniform>(
    render_pass: RenderPass<'a, Vi, P, U0, U1, U2, U3>,
    v0: IVec2,
    v1: IVec2,
    v2: IVec2,
    tri: u32,
    px: int,
    py: int,
)
    requires
        render_pass.wf(),
        viewport_rasterizable(render_pass.viewport()),
        (tri as int) < render_pass.triangles().len(),
        triangle_setup_matches(render_pass.triangles()[tri as int].0, v0, v1, v2),
        coord_in_range(v0),
        coord_in_range(v1),
        coord_in_range(v2),
        forall|tx: int, ty: int|
            tile_binned(v0, v1, v2, render_pass.viewport(), render_pass.tile_counts(), tx, ty)
                ==> #[trigger] render_pass.tile_lists()[slot(render_pass.tile_counts().x as int, tx, ty)].contains(tri),
        0 <= px < render_pass.viewport().x,
        0 <= py < render_pass.viewport().y,
        covers(render_pass.triangles()[tri as int].0, px, py),
        !(v0 == v1 && v1 == v2),
        !(min3(v0.x as int, v1.x as int, v2.x as int) == pixel_center(px) && px % (TILE_SIZE as int)
            == TILE_SIZE - 1),
        !(min3(v0.y as int, v1.y as int, v2.y as int) == pixel_center(py) && py % (TILE_SIZE as int)
            == TILE_SIZE - 1),
    ensures
        render_pass.valid_tile(IVec2 { x: (px / (TILE_SIZE as int)) as i32, y: (py / (TILE_SIZE as int)) as i32 }),
        tile_fragments(
            render_pass,
            IVec2 { x: (px / (TILE_SIZE as int)) as i32, y: (py / (TILE_SIZE as int)) as i32 },
        ).contains(fragment_at(render_pass.triangles()[tri as int].0, tri, px, py)),
{
    let info = render_pass.triangles()[tri as int].0;
    let vp = render_pass.viewport();
    render_pass.lemma_tile_counts();
    lemma_covered_pixel_binned(info, v0, v1, v2, vp, px, py);
    let tx = px / 16;
    let ty = py / 16;
    let tile = IVec2 { x: tx as i32, y: ty as i32 };
    assert(render_pass.tile_lists()[slot(render_pass.tile_counts().x as int, tx, ty)].contains(tri));
    lemma_tile_window(tile, vp);
    vstd::arithmetic::div_mod::lemma_fundamental_div_mod(px, 16);
    vstd::arithmetic::div_mod::lemma_fundamental_div_mod(py, 16);
    lemma_listed_fragments_complete(
        render_pass.triangles(),
        render_pass.tile_lists()[render_pass.tile_slot(tile)],
        tx * TILE_SIZE,
        ty * TILE_SIZE,
        tile_extent(tx, vp.x as int) as nat,
        tile_extent(ty, vp.y as int) as nat,
        tri,
        px,
        py,
    );
}

/// Rasterizing a tile misses no covered pixel of a triangle binned to it:
/// for every pixel of the tile (within the viewport) whose center a listed
/// triangle covers, the triangle's fragment at that pixel is produced.
pub proof fn lemma_tile_fragments_complete<'a, Vi: Sync, P, U0: Uniform, U1: Uniform, U2: Uniform, U3: Uniform>(
    render_pass: RenderPass<'a, Vi, P, U0, U1, U2, U3>,
    tile: IVec2,
    tri: u32,
    px: int,
    py: int,
)
    requires
        render_pass.wf(),
        render_pass.valid_tile(tile),
        viewport_rasterizable(render_pass.viewport()),
        render_pass.tile_lists()[render_pass.tile_slot(tile)].contains(tri),
        tile.x * TILE_SIZE <= px < (tile.x + 1) * TILE_SIZE,
        tile.y * TILE_SIZE <= py < (tile.y + 1) * TILE_SIZE,
        0 <= px < render_pass.viewport().x,
        0 <= py < render_pass.viewport().y,
        covers(render_pass.triangles()[tri as int].0, px, py),
    ensures
        tile_fragments(render_pass, tile).contains(fragment_at(render_pass.triangles()[tri as int].0, tri, px, py)),
{
    let vp = render_pass.viewport();
    render_pass.lemma_tile_counts();
    lemma_tile_window(tile, vp);
    lemma_listed_fragments_complete(
        render_pass.triangles(),
        render_pass.tile_lists()[render_pass.tile_slot(tile)],
        tile.x * TILE_SIZE,
        tile.y * TILE_SIZE,
        tile_extent(tile.x as int, vp.x as int) as nat,
        tile_extent(tile.y as int, vp.y as int) as nat,
        tri,
        px,
        py,
    );
}

/// The fill rule as the rasterizer applies it: when two front-facing
/// triangles `a, b, c` and `c, b, d` that share the edge `b-c` are both binned
/// to a tile, every pixel of the tile whose center lies strictly inside the
/// segment from `b` to `c` (the point `((m - k) * b + k * c) / m`, `0 < k < m`)
/// gets a fragment from exactly one of them.
pub proof fn lemma_shared_edge_rasterized_once<'a, Vi: Sync, P, U0: Uniform, U1: Uniform, U2: Uniform, U3: Uniform>(
    render_pass: RenderPass<'a, Vi, P, U0, U1, U2, U3>,
    tile: IVec2,
    t1: u32,
    t2: u32,
    a: IVec2,
    b: IVec2,
    c: IVec2,
    d: IVec2,
    px: int,
    py: int,
    k: int,
    m: int,
)
    requires
        render_pass.wf(),
        render_pass.valid_tile(tile),
        viewport_rasterizable(render_pass.viewport()),
        render_pass.tile_lists()[render_pass.tile_slot(tile)].contains(t1),
        render_pass.tile_lists()[render_pass.tile_slot(tile)].contains(t2),
        t1 != t2,
        (t1 as int) < render_pass.triangles().len(),
        (t2 as int) < render_pass.triangles().len(),
        triangle_setup_matches(render_pass.triangles()[t1 as int].0, a, b, c),
        triangle_setup_matches(render_pass.triangles()[t2 as int].0, c, b, d),
        coord_in_range(a),
        coord_in_range(b),
        coord_in_range(c),
        coord_in_range(d),
        edge_value(b, c, a.x as int, a.y as int) > 0,
        edge_value(b, d, c.x as int, c.y as int) > 0,
        0 < k < m,
        m * pixel_center(px) == (m - k) * b.x + k * c.x,
        m * pixel_center(py) == (m - k) * b.y + k * c.y,
        tile.x * TILE_SIZE <= px < (tile.x + 1) * TILE_SIZE,
        tile.y * TILE_SIZE <= py < (tile.y + 1) * TILE_SIZE,
        0 <= px < render_pass.viewport().x,
        0 <= py < render_pass.viewport().y,
    ensures
        tile_fragments(render_pass, tile).contains(fragment_at(render_pass.triangles()[t1 as int].0, t1, px, py))
            != tile_fragments(render_pass, tile).contains(
            fragment_at(render_pass.triangles()[t2 as int].0, t2, px, py),
        ),
{
    let info1 = render_pass.triangles()[t1 as int].0;
    let info2 = render_pass.triangles()[t2 as int].0;
    let frags = tile_fragments(render_pass, tile);
    lemma_shared_edge_owned_once(info1, info2, a, b, c, d, px, py, k, m);
    if covers(info1, px, py) {
        lemma_tile_fragments_complete(render_pass, tile, t1, px, py);
        if frags.contains(fragment_at(info2, t2, px, py)) {
            let j = choose|j: int| 0 <= j < frags.len() && frags[j] == fragment_at(info2, t2, px, py);
            lemma_tile_fragments_sound(render_pass, tile, j);
        }
    } else {
        lemma_tile_fragments_complete(render_pass, tile, t2, px, py);
        if frags.contains(fragment_at(info1, t1, px, py)) {
            let j = choose|j: int| 0 <= j < frags.len() && frags[j] == fragment_at(info1, t1, px, py);
            lemma_tile_fragments_sound(render_pass, tile, j);
        }
    }
}

/// An edge value at a pixel center inside a rasterizable viewport fits in
/// `i64` with room to spare.
proof fn lemma_center_edge_value_bound(a: IVec2, b: IVec2, px: int, py: int, viewport: IVec2)
    requires
        coord_in_range(a),
        coord_in_range(b),
        viewport_rasterizable(viewport),
        0 <= px < viewport.x,
        0 <= py < viewport.y,
    ensures
        -0x5000_0000_0000_0000 <= edge_value(a, b, pixel_center(px), pixel_center(py)) <= 0x5000_0000_0000_0000,
{
    lemma_product_bound(b.y - a.y, pixel_center(px) - a.x, 0x4000_0000, 0xA000_0000);
    lemma_product_bound(a.x - b.x, pixel_center(py) - a.y, 0x4000_0000, 0xA000_0000);
}

/// Each fragment weighs each vertex by the edge opposite it: for a triangle
/// set up from `v0, v1, v2`, a fragment's `w0`, `w1` and `w2` are the edge
/// values, at the pixel center, of the edges `v1 -> v2`, `v2 -> v0` and
/// `v0 -> v1`, so that `w0 * v0 + w1 * v1 + w2 * v2` is the pixel center
/// scaled by the triangle's doubled signed area: the weight of a vertex
/// grows as the pixel moves toward it.
pub proof fn lemma_tile_fragment_weights<'a, Vi: Sync, P, U0: Uniform, U1: Uniform, U2: Uniform, U3: Uniform>(
    render_pass: RenderPass<'a, Vi, P, U0, U1, U2, U3>,
    tile: IVec2,
    k: int,
    v0: IVec2,
    v1: IVec2,
    v2: IVec2,
)
    requires
        render_pass.wf(),
        render_pass.valid_tile(tile),
        viewport_rasterizable(render_pass.viewport()),
        0 <= k < tile_fragments(render_pass, tile).len(),
        coord_in_range(v0),
        coord_in_range(v1),
        coord_in_range(v2),
        triangle_setup_matches(
            render_pass.triangles()[tile_fragments(render_pass, tile)[k].triangle as int].0,
            v0,
            v1,
            v2,
        ),
    ensures
        ({
            let f = tile_fragments(render_pass, tile)[k];
            let cx = pixel_center(f.x as int);
            let cy = pixel_center(f.y as int);
            &&& f.w0 == edge_value(v1, v2, cx, cy)
            &&& f.w1 == edge_value(v2, v0, cx, cy)
            &&& f.w2 == edge_value(v0, v1, cx, cy)
            &&& f.w0 * v0.x + f.w1 * v1.x + f.w2 * v2.x == edge_value(v1, v2, v0.x as int, v0.y as int) * cx
            &&& f.w0 * v0.y + f.w1 * v1.y + f.w2 * v2.y == edge_value(v1, v2, v0.x as int, v0.y as int) * cy
        }),
{
    lemma_tile_fragments_sound(render_pass, tile, k);
    let f = tile_fragments(render_pass, tile)[k];
    let cx = pixel_center(f.x as int);
    let cy = pixel_center(f.y as int);
    let vp = render_pass.viewport();
    lemma_edge_fn_eval(v1, v2, cx, cy);
    lemma_edge_fn_eval(v2, v0, cx, cy);
    lemma_edge_fn_eval(v0, v1, cx, cy);
    lemma_center_edge_value_bound(v1, v2, f.x as int, f.y as int, vp);
    lemma_center_edge_value_bound(v2, v0, f.x as int, f.y as int, vp);
    lemma_center_edge_value_bound(v0, v1, f.x as int, f.y as int, vp);
    lemma_barycentric_x(v0, v1, v2, cx, cy);
}

} // verus!
