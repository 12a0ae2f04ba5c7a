use vstd::prelude::*;

use crate::rasterize::{RasterizationInfo, TILE_SIZE};
use crate::uniform::{Uniform, Uniforms};
use crate::util::chunked_vec::ChunkedVec;
use crate::vector::{IVec2, vec2};

verus! {

/// Number of triangles per chunk of a render pass's triangle buffers.
pub const TRI_BUF_CHUNK_SIZE: usize = 1024;

/// The triangles binned to one tile, by id.
struct TileData {
    tri_indices: Vec<u32>,
}

/// Number of tiles needed to cover `len` pixels.
pub open spec fn tiles_for(len: int) -> int {
    (len + TILE_SIZE - 1) / (TILE_SIZE as int)
}

/// Viewport sizes a render pass accepts: non-negative, with the tile counts and
/// the number of tiles representable as `i32`.
pub open spec fn viewport_supported(viewport_size: IVec2) -> bool {
    &&& 0 <= viewport_size.x <= i32::MAX - TILE_SIZE
    &&& 0 <= viewport_size.y <= i32::MAX - TILE_SIZE
    &&& tiles_for(viewport_size.x as int) * tiles_for(viewport_size.y as int) <= i32::MAX
}

/// The state of one render pass: the triangles submitted to it, and for each
/// tile of the viewport the ids of the triangles that may cover it.
pub struct RenderPass<'a, Vi: Sync, P, U0: Uniform, U1: Uniform, U2: Uniform, U3: Uniform> {
    raw_triangles: ChunkedVec<(&'a Vi, &'a Vi, &'a Vi, [u32; 4]), TRI_BUF_CHUNK_SIZE>,
    triangles: ChunkedVec<(RasterizationInfo, P), TRI_BUF_CHUNK_SIZE>,
    tiles: Vec<TileData>,
    viewport_size: IVec2,
    num_tiles: IVec2,
    uniforms: Uniforms<'a, U0, U1, U2, U3>,
}

impl<'a, Vi: Sync, P, U0: Uniform, U1: Uniform, U2: Uniform, U3: Uniform> RenderPass<
    'a,
    Vi,
    P,
    U0,
    U1,
    U2,
    U3,
> {
    /// The submitted triangles, in order; a triangle's id is its position.
    pub closed spec fn triangles(&self) -> Seq<(RasterizationInfo, P)> {
        self.triangles.view()
    }

    /// The triangles recorded before vertex processing, in order.
    pub closed spec fn raw_triangle_list(&self) -> Seq<(&'a Vi, &'a Vi, &'a Vi, [u32; 4])> {
        self.raw_triangles.view()
    }

    /// For each tile, in row-major order, the ids binned to it.
    pub closed spec fn tile_lists(&self) -> Seq<Seq<u32>> {
        Seq::new(self.tiles@.len(), |i: int| self.tiles@[i].tri_indices@)
    }

    /// The viewport size in pixels.
    pub closed spec fn viewport(&self) -> IVec2 {
        self.viewport_size
    }

    /// The number of tiles across and down.
    pub closed spec fn tile_counts(&self) -> IVec2 {
        self.num_tiles
    }

    /// The bound uniform buffers.
    pub closed spec fn uniforms_spec(&self) -> Uniforms<'a, U0, U1, U2, U3> {
        self.uniforms
    }

    /// Position in `tile_lists` of the tile at `tile`.
    pub open spec fn tile_slot(&self, tile: IVec2) -> int {
        slot(self.tile_counts().x as int, tile.x as int, tile.y as int)
    }

    /// Whether `tile` names a tile of this pass.
    pub open spec fn valid_tile(&self, tile: IVec2) -> bool {
        0 <= tile.x < self.tile_counts().x && 0 <= tile.y < self.tile_counts().y
    }

    /// Every id in every tile list names a stored triangle.
    pub open spec fn tile_ids_valid(&self) -> bool {
        forall|t: int, i: int|
            0 <= t < self.tile_lists().len() && 0 <= i < self.tile_lists()[t].len() ==> (
            #[trigger] self.tile_lists()[t][i] as int) < self.triangles().len()
    }

    /// The invariant every render pass keeps: the tile grid covers the
    /// viewport, and every stored triangle has bounded edge functions.
    pub closed spec fn wf(&self) -> bool {
        &&& viewport_supported(self.viewport_size)
        &&& self.num_tiles.x == tiles_for(self.viewport_size.x as int)
        &&& self.num_tiles.y == tiles_for(self.viewport_size.y as int)
        &&& self.tiles@.len() == self.num_tiles.x * self.num_tiles.y
        &&& self.triangles.wf()
        &&& self.raw_triangles.wf()
        &&& forall|i: int|
            0 <= i < self.triangles.view().len() ==> (#[trigger] self.triangles.view()[i]).0.wf()
    }

    /// A pass over a viewport of `viewport_size` pixels, with no triangles and
    /// one empty list per tile.
    pub fn new(viewport_size: IVec2, uniforms: Uniforms<'a, U0, U1, U2, U3>) -> (r: Self)
        requires
            viewport_supported(viewport_size),
        ensures
            r.wf(),
            r.viewport() == viewport_size,
            r.tile_counts() == vec2_spec(
                tiles_for(viewport_size.x as int) as i32,
                tiles_for(viewport_size.y as int) as i32,
            ),
            r.tile_lists() == Seq::new(
                (tiles_for(viewport_size.x as int) * tiles_for(viewport_size.y as int)) as nat,
                |i: int| Seq::<u32>::empty(),
            ),
            r.triangles() == Seq::<(RasterizationInfo, P)>::empty(),
            r.tile_ids_valid(),
            r.raw_triangle_list() == Seq::<(&'a Vi, &'a Vi, &'a Vi, [u32; 4])>::empty(),
            r.uniforms_spec() == uniforms,
    {
        let num_tiles_x = (viewport_size.x + TILE_SIZE - 1) / TILE_SIZE;
        let num_tiles_y = (viewport_size.y + TILE_SIZE - 1) / TILE_SIZE;
        let count = num_tiles_x * num_tiles_y;
        let mut tiles: Vec<TileData> = Vec::with_capacity(count as usize);
        let mut i: i32 = 0;
        while i < count
            invariant
                0 <= i <= count,
                tiles@.len() == i,
                forall|k: int| 0 <= k < i ==> (#[trigger] tiles@[k]).tri_indices@ == Seq::<
                    u32,
                >::empty(),
            decreases count - i,
        {
            tiles.push(TileData { tri_indices: Vec::with_capacity(256) });
            i = i + 1;
        }
        let r = Self {
            raw_triangles: ChunkedVec::with_capacity(64),
            triangles: ChunkedVec::with_capacity(64),
            tiles,
            viewport_size,
            num_tiles: vec2(num_tiles_x, num_tiles_y),
            uniforms,
        };
        assert(r.tile_lists() =~= Seq::new(count as nat, |i: int| Seq::<u32>::empty()));
        r
    }

    /// The viewport size in pixels.
    pub fn viewport_size(&self) -> (r: IVec2)
        ensures
            r == self.viewport(),
    {
        self.viewport_size
    }

    /// The number of tiles across and down.
    pub fn num_tiles(&self) -> (r: IVec2)
        ensures
            r == self.tile_counts(),
    {
        self.num_tiles
    }

    /// The bound uniform buffers.
    pub fn uniforms(&self) -> (r: &Uniforms<'a, U0, U1, U2, U3>)
        ensures
            *r == self.uniforms_spec(),
    {
        &self.uniforms
    }

    /// The triangles recorded before vertex processing.
    pub fn raw_triangles(&self) -> (r: &ChunkedVec<
        (&'a Vi, &'a Vi, &'a Vi, [u32; 4]),
        TRI_BUF_CHUNK_SIZE,
    >)
        ensures
            r.view() == self.raw_triangle_list(),
    {
        &self.raw_triangles
    }

    /// The stored triangle with id `idx`.
    pub fn triangle_data(&self, idx: usize) -> (r: &(RasterizationInfo, P))
        requires
            self.wf(),
            idx < self.triangles().len(),
        ensures
            *r == self.triangles()[idx as int],
            r.0.wf(),
    {
        &self.triangles[idx]
    }

    /// The ids binned to `tile`, in the order they were binned.
    pub fn tile_tri_indices(&self, tile: IVec2) -> (r: &[u32])
        requires
            self.wf(),
            self.valid_tile(tile),
        ensures
            r@ == self.tile_lists()[self.tile_slot(tile)],
    {
        proof {
            self.lemma_tile_slot(tile);
        }
        self.tiles[(tile.y * self.num_tiles.x + tile.x) as usize].tri_indices.as_slice()
    }

    /// Records a triangle before vertex processing.
    pub fn add_raw_triangle(&mut self, vi0: &'a Vi, vi1: &'a Vi, vi2: &'a Vi, uniform_indices: [u32; 4])
        requires
            old(self).wf(),
            old(self).raw_triangle_list().len() < usize::MAX,
        ensures
            final(self).wf(),
            final(self).raw_triangle_list() == old(self).raw_triangle_list().push(
                (vi0, vi1, vi2, uniform_indices),
            ),
            final(self).triangles() == old(self).triangles(),
            final(self).tile_lists() == old(self).tile_lists(),
            old(self).tile_ids_valid() ==> final(self).tile_ids_valid(),
            final(self).viewport() == old(self).viewport(),
            final(self).tile_counts() == old(self).tile_counts(),
            final(self).uniforms_spec() == old(self).uniforms_spec(),
    {
        self.raw_triangles.push((vi0, vi1, vi2, uniform_indices));
    }

    /// Stores a set-up triangle and returns its id, the number of triangles
    /// stored before it (truncated to `u32`).
    pub fn add_triangle(&mut self, rasterization_info: RasterizationInfo, data: P) -> (id: u32)
        requires
            old(self).wf(),
            rasterization_info.wf(),
            old(self).triangles().len() < usize::MAX,
        ensures
            final(self).wf(),
            id == old(self).triangles().len() as u32,
            final(self).triangles() == old(self).triangles().push((rasterization_info, data)),
            old(self).tile_ids_valid() ==> final(self).tile_ids_valid(),
            final(self).raw_triangle_list() == old(self).raw_triangle_list(),
            final(self).tile_lists() == old(self).tile_lists(),
            final(self).viewport() == old(self).viewport(),
            final(self).tile_counts() == old(self).tile_counts(),
            final(self).uniforms_spec() == old(self).uniforms_spec(),
    {
        let id = self.triangles.len() as u32;
        self.triangles.push((rasterization_info, data));
        proof {
            if old(self).tile_ids_valid() {
                assert forall|t: int, i: int|
                    0 <= t < self.tile_lists().len() && 0 <= i < self.tile_lists()[t].len() implies (
                    #[trigger] self.tile_lists()[t][i] as int) < self.triangles().len() by {
                    assert(self.tile_lists()[t][i] == old(self).tile_lists()[t][i]);
                }
            }
            assert forall|i: int| 0 <= i < self.triangles.view().len() implies (
            #[trigger] self.triangles.view()[i]).0.wf() by {
                if i < old(self).triangles.view().len() {
                    assert(self.triangles.view()[i] == old(self).triangles.view()[i]);
                }
            }
        }
        id
    }

    /// Appends `tri_id` to the list of `tile`.
    pub fn add_tri_to_tile(&mut self, tile: IVec2, tri_id: u32)
        requires
            old(self).wf(),
            old(self).valid_tile(tile),
        ensures
            final(self).wf(),
            final(self).tile_lists() == old(self).tile_lists().update(
                old(self).tile_slot(tile),
                old(self).tile_lists()[old(self).tile_slot(tile)].push(tri_id),
            ),
            final(self).triangles() == old(self).triangles(),
            old(self).tile_ids_valid() && (tri_id as int) < old(self).triangles().len()
                ==> final(self).tile_ids_valid(),
            final(self).raw_triangle_list() == old(self).raw_triangle_list(),
            final(self).viewport() == old(self).viewport(),
            final(self).tile_counts() == old(self).tile_counts(),
            final(self).uniforms_spec() == old(self).uniforms_spec(),
    {
        proof {
            self.lemma_tile_slot(tile);
        }
        let stride = self.num_tiles.x;
        let ghost slot = (tile.y * stride + tile.x) as int;
        self.tiles[(tile.y * stride + tile.x) as usize].tri_indices.push(tri_id);
        assert(self.tile_lists() =~= old(self).tile_lists().update(
            slot,
            old(self).tile_lists()[slot].push(tri_id),
        ));
        proof {
            if old(self).tile_ids_valid() && (tri_id as int) < old(self).triangles().len() {
                assert forall|t: int, i: int|
                    0 <= t < self.tile_lists().len() && 0 <= i < self.tile_lists()[t].len() implies (
                    #[trigger] self.tile_lists()[t][i] as int) < self.triangles().len() by {
                    if t != slot {
                        assert(self.tile_lists()[t] == old(self).tile_lists()[t]);
                    } else if i < old(self).tile_lists()[t].len() {
                        assert(self.tile_lists()[t][i] == old(self).tile_lists()[t][i]);
                    }
                }
            }
        }
    }

    /// The tile grid matches the viewport and has one list per tile.
    pub proof fn lemma_tile_counts(&self)
        requires
            self.wf(),
        ensures
            viewport_supported(self.viewport()),
            self.tile_counts().x == tiles_for(self.viewport().x as int),
            self.tile_counts().y == tiles_for(self.viewport().y as int),
            self.tile_lists().len() == self.tile_counts().x * self.tile_counts().y,
            self.tile_counts().x >= 0,
            self.tile_counts().y >= 0,
    {
    }

    /// A tile's slot is within the tile list and computable in `i32`.
    proof fn lemma_tile_slot(&self, tile: IVec2)
        requires
            self.wf(),
            self.valid_tile(tile),
        ensures
            0 <= self.tile_slot(tile) < self.tile_lists().len(),
            self.tile_slot(tile) <= i32::MAX,
    {
        let nx = self.num_tiles.x as int;
        let ny = self.num_tiles.y as int;
        assert(0 <= tile.y * nx + tile.x < nx * ny) by (nonlinear_arith)
            requires
                0 <= tile.x < nx,
                0 <= tile.y < ny,
        ;
    }
}

/// A stored triangle is found again by the id `add_triangle` returned, as long
/// as ids fit in `u32`: `triangle_data(id)` gives back what was added, and the
/// triangles stored before are untouched.
pub proof fn lemma_triangle_id_finds_triangle<P>(
    before: Seq<(RasterizationInfo, P)>,
    after: Seq<(RasterizationInfo, P)>,
    added: (RasterizationInfo, P),
    id: u32,
    i: int,
)
    requires
        after == before.push(added),
        id == before.len() as u32,
        before.len() < u32::MAX,
    ensures
        id as int == before.len(),
        (id as int) < after.len(),
        after[id as int] == added,
        0 <= i < before.len() ==> after[i] == before[i],
{
}

/// The tile grid covers the viewport: every pixel of the viewport lies in a
/// tile of the grid, and the grid has no tile entirely outside it.
pub proof fn lemma_tiles_cover_viewport(viewport_size: IVec2, px: int, py: int)
    requires
        viewport_supported(viewport_size),
        0 <= px < viewport_size.x,
        0 <= py < viewport_size.y,
    ensures
        0 <= px / (TILE_SIZE as int) < tiles_for(viewport_size.x as int),
        0 <= py / (TILE_SIZE as int) < tiles_for(viewport_size.y as int),
        (tiles_for(viewport_size.x as int) - 1) * TILE_SIZE < viewport_size.x,
        (tiles_for(viewport_size.y as int) - 1) * TILE_SIZE < viewport_size.y,
{
    lemma_grid_axis(viewport_size.x as int, px);
    lemma_grid_axis(viewport_size.y as int, py);
}

proof fn lemma_grid_axis(extent: int, p: int)
    requires
        0 <= p < extent,
    ensures
        0 <= p / (TILE_SIZE as int) < tiles_for(extent),
        (tiles_for(extent) - 1) * TILE_SIZE < extent,
{
    let n = tiles_for(extent);
    vstd::arithmetic::div_mod::lemma_fundamental_div_mod(extent + 15, 16);
    vstd::arithmetic::div_mod::lemma_fundamental_div_mod(p, 16);
    let q = p / 16;
    assert(0 <= q < n && (n - 1) * 16 < extent) by (nonlinear_arith)
        requires
            extent + 15 == 16 * n + (extent + 15) % 16,
            0 <= (extent + 15) % 16 < 16,
            p == 16 * q + p % 16,
            0 <= p % 16 < 16,
            0 <= p < extent,
    ;
}

/// Position, in row-major order, of the tile `(tx, ty)` of a grid `nx` tiles
/// wide.
pub open spec fn slot(nx: int, tx: int, ty: int) -> int {
    ty * nx + tx
}

/// The vector with components `x` and `y`.
pub open spec fn vec2_spec(x: i32, y: i32) -> IVec2 {
    IVec2 { x, y }
}

} // verus!
