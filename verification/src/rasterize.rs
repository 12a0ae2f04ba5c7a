use vstd::prelude::*;

pub mod coverage;

use crate::pipeline::render_pass::{RenderPass, slot, tiles_for};
use crate::uniform::Uniform;
use crate::vector::{IVec2, vec2};

verus! {

/// One pixel in the fixed-point viewport coordinates used by the rasterizer.
pub const ONE: i32 = 256;

/// Half a pixel: pixel centers lie at `k * ONE + HALF`.
pub const HALF: i32 = 128;

/// Width and height of a tile, in pixels.
pub const TILE_SIZE: i32 = 16;

/// Largest magnitude of a fixed-point vertex coordinate that edge setup
/// handles without overflow (clipping keeps vertices far inside it).
pub const COORD_LIMIT: i32 = 536870912;

/// Fixed-point vertex coordinates within `COORD_LIMIT`.
pub open spec fn coord_in_range(v: IVec2) -> bool {
    &&& -COORD_LIMIT <= v.x <= COORD_LIMIT
    &&& -COORD_LIMIT <= v.y <= COORD_LIMIT
}

/// The edge function of the directed edge `a -> b` at point `(px, py)`: twice
/// the signed area of the triangle `a, b, p`. It is positive on the interior
/// side of the edges of a triangle whose vertices wind positively.
pub open spec fn edge_value(a: IVec2, b: IVec2, px: int, py: int) -> int {
    (b.y - a.y) * (px - a.x) + (a.x - b.x) * (py - a.y)
}

/// Whether the edge `a -> b` is neither a top nor a left edge; pixels whose
/// centers lie exactly on such an edge are left to the neighbouring triangle.
pub open spec fn is_not_top_left(a: IVec2, b: IVec2) -> bool {
    b.y - a.y < 0 || (b.y - a.y == 0 && b.x - a.x < 0)
}

/// An edge function in incremental form: `dx * x + dy * y + c`, with the
/// fill-rule bias already folded into `c`.
#[derive(Clone, Copy)]
pub struct EdgeFn {
    pub dx: i64,
    pub dy: i64,
    pub c: i64,
    pub not_top_left: i64,
}

/// The edge function `from_edge(a, b)` computes.
pub open spec fn edge_fn_spec(a: IVec2, b: IVec2) -> EdgeFn {
    let ntl: int = if is_not_top_left(a, b) { 1 } else { 0 };
    let dx: int = b.y - a.y;
    let dy: int = a.x - b.x;
    EdgeFn {
        dx: dx as i64,
        dy: dy as i64,
        c: (-a.x * dx - a.y * dy - ntl) as i64,
        not_top_left: ntl as i64,
    }
}

impl EdgeFn {
    /// The value at `(px, py)`.
    pub open spec fn eval(self, px: int, py: int) -> int {
        self.dx * px + self.dy * py + self.c
    }

    /// Coefficient bounds that edge setup from in-range vertices guarantees
    /// and that keep every evaluation within `i64`.
    pub open spec fn bounded(self) -> bool {
        &&& -0x4000_0000 <= self.dx <= 0x4000_0000
        &&& -0x4000_0000 <= self.dy <= 0x4000_0000
        &&& -0x1000_0000_0000_0001 <= self.c <= 0x1000_0000_0000_0001
        &&& 0 <= self.not_top_left <= 1
    }

    /// Sets up the edge function of the directed edge `v0 -> v1`.
    pub fn from_edge(v0: IVec2, v1: IVec2) -> (r: Self)
        requires
            coord_in_range(v0),
            coord_in_range(v1),
        ensures
            r == edge_fn_spec(v0, v1),
            r.bounded(),
    {
        let not_top_left = (v1.y - v0.y < 0 || (v1.y - v0.y == 0 && v1.x - v0.x < 0)) as i64;

        let dx = (v1.y - v0.y) as i64;
        let dy = (v0.x - v1.x) as i64;
        proof {
            lemma_product_bound(-v0.x as int, dx as int, 0x2000_0000, 0x4000_0000);
            lemma_product_bound(v0.y as int, dy as int, 0x2000_0000, 0x4000_0000);
        }
        let c = -v0.x as i64 * dx as i64 - v0.y as i64 * dy as i64 - not_top_left;
        Self { dx, dy, c, not_top_left }
    }

    /// The value at `pos`.
    pub fn evaluate(&self, pos: IVec2) -> (r: i64)
        requires
            self.bounded(),
        ensures
            r == self.eval(pos.x as int, pos.y as int),
    {
        proof {
            lemma_product_bound(self.dx as int, pos.x as int, 0x4000_0000, 0x8000_0000);
            lemma_product_bound(self.dy as int, pos.y as int, 0x4000_0000, 0x8000_0000);
        }
        self.dx * pos.x as i64 + self.dy * pos.y as i64 + self.c
    }
}

/// What the rasterizer keeps of a set-up triangle: its three edge functions
/// (opposite vertex 0, 1 and 2) and, for each, its value at the opposite
/// vertex without the fill-rule bias, the divisor that turns edge values into
/// barycentric coordinates.
#[derive(Clone, Copy)]
pub struct RasterizationInfo {
    edge_fns: [EdgeFn; 3],
    norm_divisors: [i64; 3],
}

impl RasterizationInfo {
    /// The three edge functions.
    pub closed spec fn edges(self) -> [EdgeFn; 3] {
        self.edge_fns
    }

    /// The three barycentric divisors.
    pub closed spec fn divisors(self) -> [i64; 3] {
        self.norm_divisors
    }

    /// All three edge functions are bounded.
    pub open spec fn wf(self) -> bool {
        &&& self.edges()[0].bounded()
        &&& self.edges()[1].bounded()
        &&& self.edges()[2].bounded()
    }

    /// The three barycentric divisors.
    pub fn norm_divisors(&self) -> (r: [i64; 3])
        ensures
            r == self.divisors(),
    {
        self.norm_divisors
    }

    /// The edge function opposite vertex `k`.
    pub fn edge_fn(&self, k: usize) -> (r: EdgeFn)
        requires
            k < 3,
        ensures
            r == self.edges()[k as int],
    {
        self.edge_fns[k]
    }
}

/// `|a * b| <= p * q` when `|a| <= p` and `|b| <= q`.
pub proof fn lemma_product_bound(a: int, b: int, p: int, q: int)
    requires
        -p <= a <= p,
        -q <= b <= q,
    ensures
        -(p * q) <= a * b <= p * q,
{
    assert(-(p * q) <= a * b <= p * q) by (nonlinear_arith)
        requires
            -p <= a <= p,
            -q <= b <= q,
    ;
}

/// The edge function of `edge_fn_spec(a, b)` is the edge value minus the
/// fill-rule bias.
pub proof fn lemma_edge_fn_eval(a: IVec2, b: IVec2, px: int, py: int)
    requires
        coord_in_range(a),
        coord_in_range(b),
    ensures
        edge_fn_spec(a, b).eval(px, py) == edge_value(a, b, px, py) - edge_fn_spec(
            a,
            b,
        ).not_top_left,
        edge_fn_spec(a, b).not_top_left == (if is_not_top_left(a, b) { 1int } else { 0int }),
{
    let dx: int = b.y - a.y;
    let dy: int = a.x - b.x;
    assert(dx * px + dy * py + (-a.x * dx - a.y * dy) == dx * (px - a.x) + dy * (py - a.y))
        by (nonlinear_arith);
    lemma_product_bound(-a.x, dx, 0x2000_0000, 0x4000_0000);
    lemma_product_bound(a.y as int, dy, 0x2000_0000, 0x4000_0000);
    assert(-a.x * dx - a.y * dy - 1 >= -0x1000_0000_0000_0001);
}

/// `info` holds the set-up of the triangle `v0, v1, v2`.
pub open spec fn triangle_setup_matches(info: RasterizationInfo, v0: IVec2, v1: IVec2, v2: IVec2) -> bool {
    &&& info.edges()[0] == edge_fn_spec(v1, v2)
    &&& info.edges()[1] == edge_fn_spec(v2, v0)
    &&& info.edges()[2] == edge_fn_spec(v0, v1)
    &&& info.divisors()[0] == edge_value(v1, v2, v0.x as int, v0.y as int)
    &&& info.divisors()[1] == edge_value(v2, v0, v1.x as int, v1.y as int)
    &&& info.divisors()[2] == edge_value(v0, v1, v2.x as int, v2.y as int)
}

/// Sets up the edge functions and barycentric divisors of the triangle
/// `v0, v1, v2`.
fn setup_triangle(v0: IVec2, v1: IVec2, v2: IVec2) -> (r: RasterizationInfo)
    requires
        coord_in_range(v0),
        coord_in_range(v1),
        coord_in_range(v2),
    ensures
        r.wf(),
        triangle_setup_matches(r, v0, v1, v2),
{
    let edge0 = EdgeFn::from_edge(v1, v2);
    let edge1 = EdgeFn::from_edge(v2, v0);
    let edge2 = EdgeFn::from_edge(v0, v1);
    proof {
        lemma_edge_fn_eval(v1, v2, v0.x as int, v0.y as int);
        lemma_edge_fn_eval(v2, v0, v1.x as int, v1.y as int);
        lemma_edge_fn_eval(v0, v1, v2.x as int, v2.y as int);
    }
    let e0 = edge0.evaluate(v0);
    let e1 = edge1.evaluate(v1);
    let e2 = edge2.evaluate(v2);
    proof {
        lemma_edge_value_bound(v1, v2, v0);
        lemma_edge_value_bound(v2, v0, v1);
        lemma_edge_value_bound(v0, v1, v2);
    }
    RasterizationInfo {
        edge_fns: [edge0, edge1, edge2],
        norm_divisors: [e0 + edge0.not_top_left, e1 + edge1.not_top_left, e2 + edge2.not_top_left],
    }
}

/// Edge values between in-range vertices stay far inside `i64`.
proof fn lemma_edge_value_bound(a: IVec2, b: IVec2, p: IVec2)
    requires
        coord_in_range(a),
        coord_in_range(b),
        coord_in_range(p),
    ensures
        -0x2000_0000_0000_0000 <= edge_value(a, b, p.x as int, p.y as int) <= 0x2000_0000_0000_0000,
{
    lemma_product_bound(b.y - a.y, p.x - a.x, 0x4000_0000, 0x4000_0000);
    lemma_product_bound(a.x - b.x, p.y - a.y, 0x4000_0000, 0x4000_0000);
}

/// Which triangles to draw, by the winding of their vertices in normalized
/// device coordinates (y up). Counterclockwise there is clockwise in the
/// viewport's y-down coordinates, where it is a positive `edge_value` of the
/// first vertex against the edge from the second to the third.
#[derive(Clone, Copy, PartialEq, Eq, Structural, Debug)]
pub enum CullMode {
    RenderAll,
    RenderOnlyCCW,
    RenderOnlyCW,
}

/// Twice the signed area of the triangle `v0, v1, v2` in viewport
/// coordinates: positive when it winds counterclockwise in normalized device
/// coordinates.
pub open spec fn signed_area(v0: IVec2, v1: IVec2, v2: IVec2) -> int {
    edge_value(v1, v2, v0.x as int, v0.y as int)
}

/// What `cull_winding` decides: `None` to cull the triangle, `Some(false)` to
/// draw it as given, `Some(true)` to draw it with its last two vertices
/// swapped. Flat triangles are always culled.
pub open spec fn cull_decision(area: int, cull: CullMode) -> Option<bool> {
    match cull {
        CullMode::RenderOnlyCCW => if area > 0 {
            Some(false)
        } else {
            None
        },
        CullMode::RenderOnlyCW => if area < 0 {
            Some(true)
        } else {
            None
        },
        CullMode::RenderAll => if area > 0 {
            Some(false)
        } else if area < 0 {
            Some(true)
        } else {
            None
        },
    }
}

/// Decides, for the culling mode `cull`, whether the triangle `v0, v1, v2`
/// (fixed-point viewport coordinates) is drawn, and in which vertex order:
/// a triangle that is kept is handed to the rasterizer in the order that
/// makes it front facing, so that it covers its pixels.
pub fn cull_winding(v0: IVec2, v1: IVec2, v2: IVec2, cull: CullMode) -> (r: Option<bool>)
    requires
        coord_in_range(v0),
        coord_in_range(v1),
        coord_in_range(v2),
    ensures
        r == cull_decision(signed_area(v0, v1, v2), cull),
        r == Some(false) ==> signed_area(v0, v1, v2) > 0,
        r == Some(true) ==> signed_area(v0, v2, v1) > 0,
{
    proof {
        lemma_product_bound(v2.y - v1.y, v0.x - v1.x, 0x4000_0000, 0x4000_0000);
        lemma_product_bound(v1.x - v2.x, v0.y - v1.y, 0x4000_0000, 0x4000_0000);
        let (ax, ay, bx, by, cx, cy) = (v0.x as int, v0.y as int, v1.x as int, v1.y as int, v2.x as int, v2.y as int);
        assert((by - cy) * (ax - cx) + (cx - bx) * (ay - cy) == -((cy - by) * (ax - bx) + (bx - cx) * (ay - by)))
            by (nonlinear_arith);
    }
    let area = (v2.y as i64 - v1.y as i64) * (v0.x as i64 - v1.x as i64) + (v1.x as i64 - v2.x as i64) * (
    v0.y as i64 - v1.y as i64);
    match cull {
        CullMode::RenderOnlyCCW => if area > 0 {
            Some(false)
        } else {
            None
        },
        CullMode::RenderOnlyCW => if area < 0 {
            Some(true)
        } else {
            None
        },
        CullMode::RenderAll => if area > 0 {
            Some(false)
        } else if area < 0 {
            Some(true)
        } else {
            None
        },
    }
}

/// Viewport sizes whose fixed-point extent, plus the pixel centers of one
/// more tile, fits in `i32`.
pub open spec fn viewport_rasterizable(viewport_size: IVec2) -> bool {
    &&& 0 <= viewport_size.x
    &&& 0 <= viewport_size.y
    &&& viewport_size.x * ONE + TILE_SIZE * ONE - HALF <= i32::MAX
    &&& viewport_size.y * ONE + TILE_SIZE * ONE - HALF <= i32::MAX
}

/// The smallest of three integers.
pub open spec fn min3(a: int, b: int, c: int) -> int {
    if a <= b && a <= c {
        a
    } else if b <= c {
        b
    } else {
        c
    }
}

/// The largest of three integers.
pub open spec fn max3(a: int, b: int, c: int) -> int {
    if a >= b && a >= c {
        a
    } else if b >= c {
        b
    } else {
        c
    }
}

/// First tile index of the span binned for a bounding box starting at `lo`.
pub open spec fn span_first_tile(lo: int) -> int {
    ((if lo < 0 { 0 } else { lo }) + HALF) / ((TILE_SIZE * ONE) as int)
}

/// One past the last tile index of the span binned for a bounding box ending
/// at `hi`, clipped to a viewport of `extent` pixels.
pub open spec fn span_end_tile(hi: int, extent: int) -> int {
    let clipped = if hi < extent * ONE { hi } else { extent * ONE };
    let num = clipped + TILE_SIZE * ONE - HALF;
    if num <= 0 {
        0
    } else {
        num / ((TILE_SIZE * ONE) as int)
    }
}

/// Whether the tile `(tx, ty)` is binned for the triangle `v0, v1, v2`: it lies
/// in the span of tiles around the triangle's bounding box and in the grid.
pub open spec fn tile_binned(
    v0: IVec2,
    v1: IVec2,
    v2: IVec2,
    viewport: IVec2,
    tile_counts: IVec2,
    tx: int,
    ty: int,
) -> bool {
    &&& span_first_tile(min3(v0.x as int, v1.x as int, v2.x as int)) <= tx
    &&& tx < span_end_tile(max3(v0.x as int, v1.x as int, v2.x as int), viewport.x as int)
    &&& span_first_tile(min3(v0.y as int, v1.y as int, v2.y as int)) <= ty
    &&& ty < span_end_tile(max3(v0.y as int, v1.y as int, v2.y as int), viewport.y as int)
    &&& 0 <= tx < tile_counts.x
    &&& 0 <= ty < tile_counts.y
}

/// Sets up the triangle `v0, v1, v2` (fixed-point viewport coordinates), stores
/// it with `data` in the render pass, and appends its id to the list of every
/// tile in the span around its bounding box.
#[verifier::loop_isolation(false)]
pub fn add_triangle_to_pass<'a, Vi: Sync, P, U0: Uniform, U1: Uniform, U2: Uniform, U3: Uniform>(
    v0: IVec2,
    v1: IVec2,
    v2: IVec2,
    data: P,
    render_pass: &mut RenderPass<'a, Vi, P, U0, U1, U2, U3>,
)
    requires
        old(render_pass).wf(),
        coord_in_range(v0),
        coord_in_range(v1),
        coord_in_range(v2),
        viewport_rasterizable(old(render_pass).viewport()),
        old(render_pass).triangles().len() < usize::MAX,
    ensures
        final(render_pass).wf(),
        final(render_pass).triangles().len() == old(render_pass).triangles().len() + 1,
        final(render_pass).triangles().drop_last() == old(render_pass).triangles(),
        triangle_setup_matches(final(render_pass).triangles().last().0, v0, v1, v2),
        final(render_pass).triangles().last().1 == data,
        final(render_pass).tile_lists().len() == old(render_pass).tile_lists().len(),
        forall|tx: int, ty: int|
            0 <= tx < old(render_pass).tile_counts().x && 0 <= ty < old(render_pass).tile_counts().y
                ==> #[trigger] final(render_pass).tile_lists()[slot(
                old(render_pass).tile_counts().x as int,
                tx,
                ty,
            )] == if tile_binned(
                v0,
                v1,
                v2,
                old(render_pass).viewport(),
                old(render_pass).tile_counts(),
                tx,
                ty,
            ) {
                old(render_pass).tile_lists()[slot(old(render_pass).tile_counts().x as int, tx, ty)].push(
                    old(render_pass).triangles().len() as u32,
                )
            } else {
                old(render_pass).tile_lists()[slot(old(render_pass).tile_counts().x as int, tx, ty)]
            },
        old(render_pass).tile_ids_valid() ==> final(render_pass).tile_ids_valid(),
        final(render_pass).raw_triangle_list() == old(render_pass).raw_triangle_list(),
        final(render_pass).viewport() == old(render_pass).viewport(),
        final(render_pass).tile_counts() == old(render_pass).tile_counts(),
        final(render_pass).uniforms_spec() == old(render_pass).uniforms_spec(),
{
    let ghost ids_valid_before = render_pass.tile_ids_valid();
    let info = setup_triangle(v0, v1, v2);
    let triangle_id = render_pass.add_triangle(info, data);
    let ghost mid = *render_pass;
    let viewport_size = render_pass.viewport_size();
    let num_tiles = render_pass.num_tiles();
    proof {
        render_pass.lemma_tile_counts();
    }

    let min_x = v0.x.min(v1.x).min(v2.x);
    let max_x = v0.x.max(v1.x).max(v2.x).min(viewport_size.x * ONE);
    let min_y = v0.y.min(v1.y).min(v2.y);
    let max_y = v0.y.max(v1.y).max(v2.y).min(viewport_size.y * ONE);

    let tile_min_x = (min_x.max(0) + HALF) / (TILE_SIZE * ONE);
    let tile_min_y = (min_y.max(0) + HALF) / (TILE_SIZE * ONE);

    let num_x = max_x + TILE_SIZE * ONE - HALF;
    let num_y = max_y + TILE_SIZE * ONE - HALF;
    let tile_max_x = if num_x <= 0 { 0 } else { num_x / (TILE_SIZE * ONE) };
    let tile_max_y = if num_y <= 0 { 0 } else { num_y / (TILE_SIZE * ONE) };

    let ghost nx = num_tiles.x as int;

    let mut tile_y = tile_min_y;
    while tile_y < tile_max_y && tile_y < num_tiles.y
        invariant
            render_pass.wf(),
            0 <= tile_min_x,
            0 <= tile_min_y <= tile_y,
            tile_y <= num_tiles.y || tile_y == tile_min_y,
            num_tiles == mid.tile_counts(),
            render_pass.tile_counts() == mid.tile_counts(),
            render_pass.viewport() == mid.viewport(),
            viewport_size == mid.viewport(),
            nx == num_tiles.x,
            render_pass.triangles() == mid.triangles(),
            render_pass.raw_triangle_list() == mid.raw_triangle_list(),
            render_pass.uniforms_spec() == mid.uniforms_spec(),
            render_pass.tile_lists().len() == mid.tile_lists().len(),
            ids_valid_before ==> render_pass.tile_ids_valid(),
            forall|tx: int, ty: int|
                0 <= tx < num_tiles.x && 0 <= ty < num_tiles.y ==> #[trigger] render_pass.tile_lists()[slot(nx, tx, ty)]
                    == if tile_binned(v0, v1, v2, viewport_size, num_tiles, tx, ty) && ty < tile_y {
                    mid.tile_lists()[slot(nx, tx, ty)].push(triangle_id)
                } else {
                    mid.tile_lists()[slot(nx, tx, ty)]
                },
        decreases num_tiles.y - tile_y,
    {
        let mut tile_x = tile_min_x;
        while tile_x < tile_max_x && tile_x < num_tiles.x
            invariant
                render_pass.wf(),
                0 <= tile_min_x <= tile_x,
                tile_x <= num_tiles.x || tile_x == tile_min_x,
                0 <= tile_y < num_tiles.y,
                tile_y < tile_max_y,
                num_tiles == mid.tile_counts(),
                render_pass.tile_counts() == mid.tile_counts(),
                render_pass.viewport() == mid.viewport(),
                nx == num_tiles.x,
                render_pass.triangles() == mid.triangles(),
                render_pass.raw_triangle_list() == mid.raw_triangle_list(),
                render_pass.uniforms_spec() == mid.uniforms_spec(),
                render_pass.tile_lists().len() == mid.tile_lists().len(),
                ids_valid_before ==> render_pass.tile_ids_valid(),
                forall|tx: int, ty: int|
                    0 <= tx < num_tiles.x && 0 <= ty < num_tiles.y ==> #[trigger] render_pass.tile_lists()[slot(nx, tx, ty)]
                        == if tile_binned(v0, v1, v2, viewport_size, num_tiles, tx, ty) && (ty < tile_y || (ty == tile_y && tx < tile_x)) {
                        mid.tile_lists()[slot(nx, tx, ty)].push(triangle_id)
                    } else {
                        mid.tile_lists()[slot(nx, tx, ty)]
                    },
            decreases num_tiles.x - tile_x,
        {
            render_pass.add_tri_to_tile(vec2(tile_x, tile_y), triangle_id);
            proof {
                lemma_slot_injective(nx, num_tiles.y as int, tile_x as int, tile_y as int, tile_x as int, tile_y as int);
                assert(tile_binned(v0, v1, v2, viewport_size, num_tiles, tile_x as int, tile_y as int));
                assert forall|tx: int, ty: int|
                    0 <= tx < num_tiles.x && 0 <= ty < num_tiles.y implies #[trigger] render_pass.tile_lists()[slot(nx, tx, ty)]
                        == if tile_binned(v0, v1, v2, viewport_size, num_tiles, tx, ty) && (ty < tile_y || (ty == tile_y && tx < tile_x + 1)) {
                        mid.tile_lists()[slot(nx, tx, ty)].push(triangle_id)
                    } else {
                        mid.tile_lists()[slot(nx, tx, ty)]
                    } by {
                    lemma_slot_injective(nx, num_tiles.y as int, tx, ty, tile_x as int, tile_y as int);
                }
            }
            tile_x += 1;
        }
        tile_y += 1;
    }
}

/// A pixel produced by the rasterizer: its position, the id of the triangle
/// covering it, and the edge values (with the fill-rule bias removed) at its
/// center, which divided by the triangle's divisors give its barycentric
/// coordinates.
#[derive(Clone, Copy, PartialEq, Eq, Structural, Debug)]
pub struct Fragment {
    pub x: u32,
    pub y: u32,
    pub triangle: u32,
    pub w0: i64,
    pub w1: i64,
    pub w2: i64,
}

/// Fixed-point coordinate of the center of pixel column (or row) `p`.
pub open spec fn pixel_center(p: int) -> int {
    p * ONE + HALF
}

/// The triangle set up in `info` covers the center of pixel `(px, py)`: all
/// three edge functions, fill-rule bias included, are non-negative there.
pub open spec fn covers(info: RasterizationInfo, px: int, py: int) -> bool {
    &&& info.edges()[0].eval(pixel_center(px), pixel_center(py)) >= 0
    &&& info.edges()[1].eval(pixel_center(px), pixel_center(py)) >= 0
    &&& info.edges()[2].eval(pixel_center(px), pixel_center(py)) >= 0
}

/// The fragment of triangle `tri` at pixel `(px, py)`.
pub open spec fn fragment_at(info: RasterizationInfo, tri: u32, px: int, py: int) -> Fragment {
    let cx = pixel_center(px);
    let cy = pixel_center(py);
    Fragment {
        x: px as u32,
        y: py as u32,
        triangle: tri,
        w0: (info.edges()[0].eval(cx, cy) + info.edges()[0].not_top_left) as i64,
        w1: (info.edges()[1].eval(cx, cy) + info.edges()[1].not_top_left) as i64,
        w2: (info.edges()[2].eval(cx, cy) + info.edges()[2].not_top_left) as i64,
    }
}

/// The fragments of triangle `tri` among the `n` pixels of row `py` starting
/// at column `px0`, left to right.
pub open spec fn row_fragments(info: RasterizationInfo, tri: u32, px0: int, py: int, n: nat) -> Seq<Fragment>
    decreases n,
{
    if n == 0 {
        Seq::empty()
    } else {
        let prev = row_fragments(info, tri, px0, py, (n - 1) as nat);
        let px = px0 + n - 1;
        if covers(info, px, py) {
            prev.push(fragment_at(info, tri, px, py))
        } else {
            prev
        }
    }
}

/// The fragments of triangle `tri` in the block of `w` by `h` pixels whose top
/// left pixel is `(px0, py0)`, row by row.
pub open spec fn block_fragments(
    info: RasterizationInfo,
    tri: u32,
    px0: int,
    py0: int,
    w: nat,
    h: nat,
) -> Seq<Fragment>
    decreases h,
{
    if h == 0 {
        Seq::empty()
    } else {
        block_fragments(info, tri, px0, py0, w, (h - 1) as nat) + row_fragments(
            info,
            tri,
            px0,
            py0 + h - 1,
            w,
        )
    }
}

/// The fragments, in the block of `w` by `h` pixels at `(px0, py0)`, of the
/// triangles `ids` (looked up in `triangles`), one triangle after the other.
pub open spec fn listed_fragments<P>(
    triangles: Seq<(RasterizationInfo, P)>,
    ids: Seq<u32>,
    px0: int,
    py0: int,
    w: nat,
    h: nat,
) -> Seq<Fragment>
    decreases ids.len(),
{
    if ids.len() == 0 {
        Seq::empty()
    } else {
        listed_fragments(triangles, ids.drop_last(), px0, py0, w, h) + block_fragments(
            triangles[ids.last() as int].0,
            ids.last(),
            px0,
            py0,
            w,
            h,
        )
    }
}

/// Number of pixel columns (or rows) of tile `t` in a viewport `extent` pixels
/// wide (or high).
pub open spec fn tile_extent(t: int, extent: int) -> int {
    let end = if (t + 1) * TILE_SIZE < extent { (t + 1) * TILE_SIZE } else { extent };
    end - t * TILE_SIZE
}

/// The fragments `rasterize_tile` produces for `tile`: for each triangle binned
/// to it, in binning order, the pixels of the tile (within the viewport) whose
/// centers the triangle covers, row by row.
pub open spec fn tile_fragments<'a, Vi: Sync, P, U0: Uniform, U1: Uniform, U2: Uniform, U3: Uniform>(
    render_pass: RenderPass<'a, Vi, P, U0, U1, U2, U3>,
    tile: IVec2,
) -> Seq<Fragment> {
    listed_fragments(
        render_pass.triangles(),
        render_pass.tile_lists()[render_pass.tile_slot(tile)],
        tile.x * TILE_SIZE,
        tile.y * TILE_SIZE,
        tile_extent(tile.x as int, render_pass.viewport().x as int) as nat,
        tile_extent(tile.y as int, render_pass.viewport().y as int) as nat,
    )
}

/// Rasterizes one tile: the fragments of every triangle binned to it, found by
/// stepping the edge functions from pixel center to pixel center.
pub fn rasterize_tile<'a, Vi: Sync, P, U0: Uniform, U1: Uniform, U2: Uniform, U3: Uniform>(
    tile: IVec2,
    render_pass: &RenderPass<'a, Vi, P, U0, U1, U2, U3>,
) -> (fragments: Vec<Fragment>)
    requires
        render_pass.wf(),
        render_pass.valid_tile(tile),
        viewport_rasterizable(render_pass.viewport()),
        forall|i: int|
            0 <= i < render_pass.tile_lists()[render_pass.tile_slot(tile)].len() ==> (
            #[trigger] render_pass.tile_lists()[render_pass.tile_slot(tile)][i] as int)
                < render_pass.triangles().len(),
    ensures
        fragments@ == tile_fragments(*render_pass, tile),
{
    let ids = render_pass.tile_tri_indices(tile);
    let viewport_size = render_pass.viewport_size();
    proof {
        render_pass.lemma_tile_counts();
        lemma_tile_window(tile, viewport_size);
    }
    let ghost px0 = tile.x * TILE_SIZE;
    let ghost py0 = tile.y * TILE_SIZE;
    let ghost w = tile_extent(tile.x as int, viewport_size.x as int) as nat;
    let ghost h = tile_extent(tile.y as int, viewport_size.y as int) as nat;
    let mut fragments: Vec<Fragment> = Vec::new();
    let mut k: usize = 0;
    while k < ids.len()
        invariant
            0 <= k <= ids@.len(),
            render_pass.wf(),
            render_pass.valid_tile(tile),
            viewport_size == render_pass.viewport(),
            viewport_rasterizable(viewport_size),
            0 <= tile.x < tiles_for(viewport_size.x as int),
            0 <= tile.y < tiles_for(viewport_size.y as int),
            px0 == tile.x * TILE_SIZE,
            py0 == tile.y * TILE_SIZE,
            w == tile_extent(tile.x as int, viewport_size.x as int) as nat,
            h == tile_extent(tile.y as int, viewport_size.y as int) as nat,
            forall|i: int|
                0 <= i < ids@.len() ==> (#[trigger] ids@[i] as int) < render_pass.triangles().len(),
            ids@ == render_pass.tile_lists()[render_pass.tile_slot(tile)],
            fragments@ == listed_fragments(render_pass.triangles(), ids@.take(k as int), px0, py0, w, h),
        decreases ids@.len() - k,
    {
        let tri = ids[k];
        let triangle_data = render_pass.triangle_data(tri as usize);
        let raster_info = triangle_data.0;
        rasterize_triangle_in_tile(tile, viewport_size, &raster_info, tri, &mut fragments);
        proof {
            assert(ids@.take(k + 1).drop_last() == ids@.take(k as int));
            assert(ids@.take(k + 1).last() == tri);
        }
        k += 1;
    }
    assert(ids@.take(ids@.len() as int) == ids@);
    fragments
}

/// Appends to `out` the fragments of one triangle in one tile.
#[verifier::loop_isolation(false)]
fn rasterize_triangle_in_tile(
    tile: IVec2,
    viewport_size: IVec2,
    raster_info: &RasterizationInfo,
    tri: u32,
    out: &mut Vec<Fragment>,
)
    requires
        raster_info.wf(),
        viewport_rasterizable(viewport_size),
        0 <= tile.x < tiles_for(viewport_size.x as int),
        0 <= tile.y < tiles_for(viewport_size.y as int),
    ensures
        final(out)@ == old(out)@ + block_fragments(
            *raster_info,
            tri,
            tile.x * TILE_SIZE,
            tile.y * TILE_SIZE,
            tile_extent(tile.x as int, viewport_size.x as int) as nat,
            tile_extent(tile.y as int, viewport_size.y as int) as nat,
        ),
{
    proof {
        lemma_tile_window(tile, viewport_size);
    }
    let ghost px0 = tile.x * TILE_SIZE;
    let ghost py0 = tile.y * TILE_SIZE;
    let ghost w = tile_extent(tile.x as int, viewport_size.x as int) as nat;
    let ghost h = tile_extent(tile.y as int, viewport_size.y as int) as nat;
    let ghost start = out@;
    let edge0 = raster_info.edge_fn(0);
    let edge1 = raster_info.edge_fn(1);
    let edge2 = raster_info.edge_fn(2);

    let base_x = tile.x * TILE_SIZE * ONE + HALF;
    let base_y = tile.y * TILE_SIZE * ONE + HALF;
    let max_x = ((tile.x + 1) * TILE_SIZE).min(viewport_size.x) * ONE;
    let max_y = ((tile.y + 1) * TILE_SIZE).min(viewport_size.y) * ONE;

    let mut e0_base = edge0.evaluate(vec2(base_x, base_y));
    let mut e1_base = edge1.evaluate(vec2(base_x, base_y));
    let mut e2_base = edge2.evaluate(vec2(base_x, base_y));

    let mut y = base_y;
    let ghost mut j: nat = 0;
    while y < max_y
        invariant
            j <= h,
            y == pixel_center(py0 + j),
            e0_base == edge0.eval(base_x as int, y as int),
            e1_base == edge1.eval(base_x as int, y as int),
            e2_base == edge2.eval(base_x as int, y as int),
            out@ == start + block_fragments(*raster_info, tri, px0, py0, w, j),
        decreases h - j,
    {
        let ghost row_start = out@;
        let mut e0 = e0_base;
        let mut e1 = e1_base;
        let mut e2 = e2_base;
        let mut x = base_x;
        let ghost mut i: nat = 0;
        proof {
            lemma_row_bounds(j, h, py0, max_y as int, y as int);
        }
        while x < max_x
            invariant
                i <= w,
                j < h,
                x == pixel_center(px0 + i),
                e0 == edge0.eval(x as int, y as int),
                e1 == edge1.eval(x as int, y as int),
                e2 == edge2.eval(x as int, y as int),
                out@ == row_start + row_fragments(*raster_info, tri, px0, py0 + j, i),
            decreases w - i,
        {
            proof {
                lemma_row_bounds(i, w, px0, max_x as int, x as int);
                lemma_sign_of_or(e0, e1, e2);
                lemma_pixel_of_center(px0 + i);
                lemma_pixel_of_center(py0 + j);
                lemma_eval_step_x(edge0, x as int, y as int);
                lemma_eval_step_x(edge1, x as int, y as int);
                lemma_eval_step_x(edge2, x as int, y as int);
            }
            if (e0 | e1 | e2) >= 0 {
                out.push(
                    Fragment {
                        x: (x / ONE) as u32,
                        y: (y / ONE) as u32,
                        triangle: tri,
                        w0: e0 + edge0.not_top_left,
                        w1: e1 + edge1.not_top_left,
                        w2: e2 + edge2.not_top_left,
                    },
                );
            }
            e0 += edge0.dx * ONE as i64;
            e1 += edge1.dx * ONE as i64;
            e2 += edge2.dx * ONE as i64;
            x += ONE;
            proof {
                i = i + 1;
            }
        }
        proof {
            lemma_row_end(i, w, px0, max_x as int, x as int);
            lemma_eval_step_y(edge0, base_x as int, y as int);
            lemma_eval_step_y(edge1, base_x as int, y as int);
            lemma_eval_step_y(edge2, base_x as int, y as int);
        }
        e0_base += edge0.dy * ONE as i64;
        e1_base += edge1.dy * ONE as i64;
        e2_base += edge2.dy * ONE as i64;
        y += ONE;
        proof {
            j = j + 1;
        }
    }
    proof {
        lemma_row_end(j, h, py0, max_y as int, y as int);
    }
}

/// The pixel window of a tile of the grid: between one and `TILE_SIZE` pixels
/// each way, ending at the tile's far edge or the viewport's, whichever comes
/// first.
pub(crate) proof fn lemma_tile_window(tile: IVec2, viewport_size: IVec2)
    requires
        viewport_rasterizable(viewport_size),
        0 <= tile.x < tiles_for(viewport_size.x as int),
        0 <= tile.y < tiles_for(viewport_size.y as int),
    ensures
        1 <= tile_extent(tile.x as int, viewport_size.x as int) <= TILE_SIZE,
        1 <= tile_extent(tile.y as int, viewport_size.y as int) <= TILE_SIZE,
        tile.x * TILE_SIZE < viewport_size.x,
        tile.y * TILE_SIZE < viewport_size.y,
        (tile.x + 1) * TILE_SIZE <= viewport_size.x + TILE_SIZE,
        (tile.y + 1) * TILE_SIZE <= viewport_size.y + TILE_SIZE,
{
    vstd::arithmetic::div_mod::lemma_fundamental_div_mod(viewport_size.x + TILE_SIZE - 1, TILE_SIZE as int);
    vstd::arithmetic::div_mod::lemma_fundamental_div_mod(viewport_size.y + TILE_SIZE - 1, TILE_SIZE as int);
}

/// Inside a row (or column) loop the pixel index is below the window size.
proof fn lemma_row_bounds(i: nat, w: nat, p0: int, max: int, x: int)
    requires
        x == pixel_center(p0 + i),
        x < max,
        max == (p0 + w) * ONE,
    ensures
        i < w,
{
}

/// When a row (or column) loop ends, it has visited the whole window.
proof fn lemma_row_end(i: nat, w: nat, p0: int, max: int, x: int)
    requires
        x == pixel_center(p0 + i),
        x >= max,
        max == (p0 + w) * ONE,
        i <= w,
    ensures
        i == w,
{
}

/// The sign bit of `a | b | c` is clear exactly when all three are
/// non-negative.
proof fn lemma_sign_of_or(a: i64, b: i64, c: i64)
    ensures
        ((a | b | c) >= 0) == (a >= 0 && b >= 0 && c >= 0),
{
    assert(((a | b | c) >= 0) == (a >= 0 && b >= 0 && c >= 0)) by (bit_vector);
}

/// A pixel center divided by `ONE` gives back the pixel.
proof fn lemma_pixel_of_center(p: int)
    requires
        p >= 0,
    ensures
        pixel_center(p) / (ONE as int) == p,
{
    vstd::arithmetic::div_mod::lemma_fundamental_div_mod_converse(pixel_center(p), ONE as int, p, HALF as int);
}

/// Edge values of bounded edge functions at `i32`-sized points fit in `i64`
/// with room to spare.
proof fn lemma_eval_bound(e: EdgeFn, x: int, y: int)
    requires
        e.bounded(),
        -0x8000_0000 <= x <= 0x8000_0000,
        -0x8000_0000 <= y <= 0x8000_0000,
    ensures
        -0x5000_0000_0000_0002 <= e.eval(x, y) <= 0x5000_0000_0000_0002,
{
    lemma_product_bound(e.dx as int, x, 0x4000_0000, 0x8000_0000);
    lemma_product_bound(e.dy as int, y, 0x4000_0000, 0x8000_0000);
}

/// Stepping one pixel to the right adds `dx * ONE`.
proof fn lemma_eval_step_x(e: EdgeFn, x: int, y: int)
    requires
        e.bounded(),
        -0x8000_0000 <= x <= 0x7FFF_FF00,
        -0x8000_0000 <= y <= 0x8000_0000,
    ensures
        e.eval(x + ONE, y) == e.eval(x, y) + e.dx * ONE,
        -0x5000_0000_0000_0002 <= e.eval(x, y) <= 0x5000_0000_0000_0002,
        -0x5000_0000_0000_0002 <= e.eval(x + ONE, y) <= 0x5000_0000_0000_0002,
{
    assert(e.dx * (x + ONE) == e.dx * x + e.dx * ONE) by (nonlinear_arith);
    lemma_eval_bound(e, x, y);
    lemma_eval_bound(e, x + ONE, y);
}

/// Stepping one pixel down adds `dy * ONE`.
proof fn lemma_eval_step_y(e: EdgeFn, x: int, y: int)
    requires
        e.bounded(),
        -0x8000_0000 <= x <= 0x8000_0000,
        -0x8000_0000 <= y <= 0x7FFF_FF00,
    ensures
        e.eval(x, y + ONE) == e.eval(x, y) + e.dy * ONE,
        -0x5000_0000_0000_0002 <= e.eval(x, y) <= 0x5000_0000_0000_0002,
        -0x5000_0000_0000_0002 <= e.eval(x, y + ONE) <= 0x5000_0000_0000_0002,
{
    assert(e.dy * (y + ONE) == e.dy * y + e.dy * ONE) by (nonlinear_arith);
    lemma_eval_bound(e, x, y);
    lemma_eval_bound(e, x, y + ONE);
}

/// Distinct tiles of a grid `nx` tiles wide have distinct slots.
proof fn lemma_slot_injective(nx: int, ny: int, tx: int, ty: int, ux: int, uy: int)
    requires
        0 <= tx < nx,
        0 <= ux < nx,
        0 <= ty < ny,
        0 <= uy < ny,
    ensures
        slot(nx, tx, ty) == slot(nx, ux, uy) <==> (tx == ux && ty == uy),
        0 <= slot(nx, tx, ty) < nx * ny,
{
    assert(slot(nx, tx, ty) == slot(nx, ux, uy) ==> (tx == ux && ty == uy)) by (nonlinear_arith)
        requires
            0 <= tx < nx,
            0 <= ux < nx,
            slot(nx, tx, ty) == ty * nx + tx,
            slot(nx, ux, uy) == uy * nx + ux,
    {
        if ty < uy {
            assert(ty * nx + nx <= uy * nx);
        } else if uy < ty {
            assert(uy * nx + nx <= ty * nx);
        }
    }
    assert(0 <= ty * nx + tx < nx * ny) by (nonlinear_arith)
        requires
            0 <= tx < nx,
            0 <= ty < ny,
    ;
}

} // verus!
