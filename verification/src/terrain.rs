use std::collections::HashMap;

use vstd::prelude::*;

use crate::vector::{IVec2, vec2};

verus! {

/// Width and depth of a terrain chunk, in grid cells.
pub const CHUNK_SIZE: i32 = 16;

/// How many chunks around the camera's chunk are kept loaded, each way.
pub const CHUNK_LOAD_RADIUS: i32 = 4;

/// Number of chunks along one side of the loaded square.
pub const CHUNK_LOAD_SPAN: i32 = 9;

/// Chunk coordinates `CHUNK_LOAD_RADIUS` chunks from `center` are representable.
pub open spec fn chunk_center_in_range(center: IVec2) -> bool {
    &&& i32::MIN + CHUNK_LOAD_RADIUS <= center.x <= i32::MAX - CHUNK_LOAD_RADIUS
    &&& i32::MIN + CHUNK_LOAD_RADIUS <= center.y <= i32::MAX - CHUNK_LOAD_RADIUS
}

/// The chunks within `CHUNK_LOAD_RADIUS` of `center`, column by column:
/// entry `n` is offset `(n / CHUNK_LOAD_SPAN - CHUNK_LOAD_RADIUS, n % CHUNK_LOAD_SPAN - CHUNK_LOAD_RADIUS)`.
pub open spec fn chunk_keys_around(center: IVec2) -> Seq<IVec2> {
    Seq::new(
        (CHUNK_LOAD_SPAN * CHUNK_LOAD_SPAN) as nat,
        |n: int|
            IVec2 {
                x: (center.x + n / (CHUNK_LOAD_SPAN as int) - CHUNK_LOAD_RADIUS) as i32,
                y: (center.y + n % (CHUNK_LOAD_SPAN as int) - CHUNK_LOAD_RADIUS) as i32,
            },
    )
}

/// The chunks within `CHUNK_LOAD_RADIUS` of `center` (a square of
/// `CHUNK_LOAD_SPAN` by `CHUNK_LOAD_SPAN`), column by column: entry
/// `CHUNK_LOAD_SPAN * i + j` is offset `(i - CHUNK_LOAD_RADIUS, j - CHUNK_LOAD_RADIUS)`.
pub fn chunks_around(center: IVec2) -> (keys: Vec<IVec2>)
    requires
        chunk_center_in_range(center),
    ensures
        keys@.len() == CHUNK_LOAD_SPAN * CHUNK_LOAD_SPAN,
        forall|i: int, j: int|
            0 <= i < CHUNK_LOAD_SPAN && 0 <= j < CHUNK_LOAD_SPAN ==> #[trigger] keys@[CHUNK_LOAD_SPAN * i
                + j] == (IVec2 {
                x: (center.x + i - CHUNK_LOAD_RADIUS) as i32,
                y: (center.y + j - CHUNK_LOAD_RADIUS) as i32,
            }),
        keys@ == chunk_keys_around(center),
{
    let mut keys: Vec<IVec2> = Vec::new();
    let mut dx: i32 = -CHUNK_LOAD_RADIUS;
    while dx <= CHUNK_LOAD_RADIUS
        invariant
            -CHUNK_LOAD_RADIUS <= dx <= CHUNK_LOAD_RADIUS + 1,
            chunk_center_in_range(center),
            keys@.len() == CHUNK_LOAD_SPAN * (dx + CHUNK_LOAD_RADIUS),
            forall|i: int, j: int|
                0 <= i < dx + CHUNK_LOAD_RADIUS && 0 <= j < CHUNK_LOAD_SPAN ==> #[trigger] keys@[CHUNK_LOAD_SPAN
                    * i + j] == (IVec2 {
                    x: (center.x + i - CHUNK_LOAD_RADIUS) as i32,
                    y: (center.y + j - CHUNK_LOAD_RADIUS) as i32,
                }),
        decreases CHUNK_LOAD_RADIUS + 1 - dx,
    {
        let mut dz: i32 = -CHUNK_LOAD_RADIUS;
        while dz <= CHUNK_LOAD_RADIUS
            invariant
                -CHUNK_LOAD_RADIUS <= dx <= CHUNK_LOAD_RADIUS,
                -CHUNK_LOAD_RADIUS <= dz <= CHUNK_LOAD_RADIUS + 1,
                chunk_center_in_range(center),
                keys@.len() == CHUNK_LOAD_SPAN * (dx + CHUNK_LOAD_RADIUS) + dz + CHUNK_LOAD_RADIUS,
                forall|i: int, j: int|
                    0 <= i < CHUNK_LOAD_SPAN && 0 <= j < CHUNK_LOAD_SPAN && CHUNK_LOAD_SPAN * i + j
                        < keys@.len() ==> #[trigger] keys@[CHUNK_LOAD_SPAN * i + j] == (IVec2 {
                        x: (center.x + i - CHUNK_LOAD_RADIUS) as i32,
                        y: (center.y + j - CHUNK_LOAD_RADIUS) as i32,
                    }),
            decreases CHUNK_LOAD_RADIUS + 1 - dz,
        {
            keys.push(vec2(center.x + dx, center.y + dz));
            proof {
                let n = keys@.len() - 1;
                assert forall|i: int, j: int|
                    0 <= i < CHUNK_LOAD_SPAN && 0 <= j < CHUNK_LOAD_SPAN && CHUNK_LOAD_SPAN * i + j
                        < keys@.len() implies #[trigger] keys@[CHUNK_LOAD_SPAN * i + j] == (IVec2 {
                        x: (center.x + i - CHUNK_LOAD_RADIUS) as i32,
                        y: (center.y + j - CHUNK_LOAD_RADIUS) as i32,
                    }) by {
                    if CHUNK_LOAD_SPAN * i + j == n {
                        lemma_span_index(i, j, dx + CHUNK_LOAD_RADIUS, dz + CHUNK_LOAD_RADIUS);
                    }
                }
            }
            dz += 1;
        }
        proof {
            assert forall|i: int, j: int|
                0 <= i < dx + 1 + CHUNK_LOAD_RADIUS && 0 <= j < CHUNK_LOAD_SPAN implies #[trigger] keys@[CHUNK_LOAD_SPAN
                    * i + j] == (IVec2 {
                    x: (center.x + i - CHUNK_LOAD_RADIUS) as i32,
                    y: (center.y + j - CHUNK_LOAD_RADIUS) as i32,
                }) by {
                assert(CHUNK_LOAD_SPAN * i + j < CHUNK_LOAD_SPAN * (dx + 1 + CHUNK_LOAD_RADIUS)) by (nonlinear_arith)
                    requires
                        0 <= i < dx + 1 + CHUNK_LOAD_RADIUS,
                        0 <= j < CHUNK_LOAD_SPAN,
                ;
            }
        }
        dx += 1;
    }
    proof {
        assert forall|n: int| 0 <= n < keys@.len() implies #[trigger] keys@[n] == chunk_keys_around(center)[n] by {
            let i = n / 9;
            let j = n % 9;
            vstd::arithmetic::div_mod::lemma_fundamental_div_mod(n, 9);
            assert(0 <= i < 9) by (nonlinear_arith)
                requires
                    0 <= n < 81,
                    i == n / 9,
            ;
            assert(keys@[CHUNK_LOAD_SPAN * i + j] == chunk_keys_around(center)[n]);
        }
        assert(keys@ =~= chunk_keys_around(center));
    }
    keys
}

/// Positions in the square grid are distinct: entry `9 * i + j` is `(i, j)`.
proof fn lemma_span_index(i: int, j: int, a: int, b: int)
    requires
        0 <= i < CHUNK_LOAD_SPAN,
        0 <= j < CHUNK_LOAD_SPAN,
        0 <= a < CHUNK_LOAD_SPAN,
        0 <= b < CHUNK_LOAD_SPAN,
        CHUNK_LOAD_SPAN * i + j == CHUNK_LOAD_SPAN * a + b,
    ensures
        i == a,
        j == b,
{
    assert(i == a && j == b) by (nonlinear_arith)
        requires
            0 <= i < 9,
            0 <= j < 9,
            0 <= a < 9,
            0 <= b < 9,
            9 * i + j == 9 * a + b,
    ;
}

/// The key a chunk is stored under: a one-to-one map of chunk coordinates
/// onto `i64`.
pub open spec fn chunk_hash_key(key: IVec2) -> int {
    key.x * 0x1_0000_0000 + (key.y + 0x8000_0000)
}

/// Distinct chunks are stored under distinct keys.
proof fn lemma_chunk_hash_key_injective(a: IVec2, b: IVec2)
    ensures
        chunk_hash_key(a) == chunk_hash_key(b) ==> a == b,
{
    let (ax, ay, bx, by) = (a.x as int, a.y as int, b.x as int, b.y as int);
    assert(ax * 0x1_0000_0000 + (ay + 0x8000_0000) == bx * 0x1_0000_0000 + (by + 0x8000_0000) ==> ax == bx
        && ay == by) by (nonlinear_arith)
        requires
            -0x8000_0000 <= ay < 0x8000_0000,
            -0x8000_0000 <= by < 0x8000_0000,
    ;
}

fn hash_key(key: IVec2) -> (r: i64)
    ensures
        r == chunk_hash_key(key),
{
    assert(i64::MIN <= key.x * 0x1_0000_0000 + (key.y + 0x8000_0000) <= i64::MAX) by (nonlinear_arith)
        requires
            -0x8000_0000 <= key.x < 0x8000_0000,
            -0x8000_0000 <= key.y < 0x8000_0000,
    ;
    key.x as i64 * 0x1_0000_0000 + (key.y as i64 + 0x8000_0000)
}

/// The chunks around `center` that `loaded` lacks, in the order of
/// `chunks_around`.
pub open spec fn missing_around<T>(loaded: Map<IVec2, T>, center: IVec2) -> Seq<IVec2> {
    chunk_keys_around(center).filter(|k: IVec2| !loaded.contains_key(k))
}

/// The loaded terrain chunks, each under its chunk coordinates. Chunks are
/// generated by the caller and never evicted.
pub struct ChunkManager<T> {
    chunk_map: HashMap<i64, T>,
}

impl<T> View for ChunkManager<T> {
    type V = Map<IVec2, T>;

    closed spec fn view(&self) -> Map<IVec2, T> {
        Map::new(
            |k: IVec2| self.chunk_map@.contains_key(chunk_hash_key(k) as i64),
            |k: IVec2| self.chunk_map@[chunk_hash_key(k) as i64],
        )
    }
}

impl<T> ChunkManager<T> {
    /// No chunk loaded.
    pub fn new() -> (r: Self)
        ensures
            r@ == Map::<IVec2, T>::empty(),
    {
        let r = ChunkManager { chunk_map: HashMap::new() };
        assert(r@ =~= Map::<IVec2, T>::empty());
        r
    }

    /// Whether chunk `key` is loaded.
    pub fn contains(&self, key: IVec2) -> (r: bool)
        ensures
            r == self@.contains_key(key),
    {
        broadcast use vstd::std_specs::hash::group_hash_axioms;

        let k = hash_key(key);
        self.chunk_map.contains_key(&k)
    }

    /// The loaded chunk `key`, if it is loaded.
    pub fn get(&self, key: IVec2) -> (r: Option<&T>)
        ensures
            match r {
                Some(c) => self@.contains_key(key) && *c == self@[key],
                None => !self@.contains_key(key),
            },
    {
        broadcast use vstd::std_specs::hash::group_hash_axioms;

        let k = hash_key(key);
        self.chunk_map.get(&k)
    }

    /// Stores `chunk` as chunk `key`, in place of any chunk loaded there.
    pub fn insert(&mut self, key: IVec2, chunk: T)
        ensures
            final(self)@ == old(self)@.insert(key, chunk),
    {
        broadcast use vstd::std_specs::hash::group_hash_axioms;

        let k = hash_key(key);
        self.chunk_map.insert(k, chunk);
        proof {
            assert forall|q: IVec2| #[trigger] self@.contains_key(q) == old(self)@.insert(key, chunk).contains_key(q)
                by {
                lemma_chunk_hash_key_injective(q, key);
            }
            assert forall|q: IVec2| #[trigger] self@.contains_key(q) implies self@[q] == old(self)@.insert(key, chunk)[q]
                by {
                lemma_chunk_hash_key_injective(q, key);
            }
            assert(self@ =~= old(self)@.insert(key, chunk));
        }
    }

    /// The chunks around `center` that are not loaded yet, in the order of
    /// `chunks_around`.
    pub fn missing_chunks(&self, center: IVec2) -> (r: Vec<IVec2>)
        requires
            chunk_center_in_range(center),
        ensures
            r@ == missing_around(self@, center),
    {
        let keys = chunks_around(center);
        let ghost pred = |k: IVec2| !self@.contains_key(k);
        let mut out: Vec<IVec2> = Vec::new();
        let mut i: usize = 0;
        while i < keys.len()
            invariant
                i <= keys@.len(),
                out@ == keys@.take(i as int).filter(pred),
                pred == (|k: IVec2| !self@.contains_key(k)),
            decreases keys@.len() - i,
        {
            let key = keys[i];
            if !self.contains(key) {
                out.push(key);
            }
            proof {
                reveal(Seq::filter);
                assert(keys@.take(i + 1).drop_last() =~= keys@.take(i as int));
                assert(keys@.take(i + 1).last() == key);
            }
            i += 1;
        }
        assert(keys@.take(keys@.len() as int) =~= keys@);
        out
    }

    /// The chunks around `center`, in the order of `chunks_around`; each of
    /// them must be loaded.
    pub fn get_active_chunks(&self, center: IVec2) -> (r: Vec<&T>)
        requires
            chunk_center_in_range(center),
            forall|n: int| 0 <= n < CHUNK_LOAD_SPAN * CHUNK_LOAD_SPAN ==> self@.contains_key(
                #[trigger] chunk_keys_around(center)[n],
            ),
        ensures
            r@.len() == CHUNK_LOAD_SPAN * CHUNK_LOAD_SPAN,
            forall|n: int| 0 <= n < r@.len() ==> *#[trigger] r@[n] == self@[chunk_keys_around(center)[n]],
    {
        let keys = chunks_around(center);
        let mut out: Vec<&T> = Vec::new();
        let mut i: usize = 0;
        while i < keys.len()
            invariant
                i <= keys@.len(),
                keys@ == chunk_keys_around(center),
                out@.len() == i,
                forall|n: int| 0 <= n < CHUNK_LOAD_SPAN * CHUNK_LOAD_SPAN ==> self@.contains_key(
                    #[trigger] chunk_keys_around(center)[n],
                ),
                forall|n: int| 0 <= n < i ==> *#[trigger] out@[n] == self@[chunk_keys_around(center)[n]],
            decreases keys@.len() - i,
        {
            let key = keys[i];
            assert(self@.contains_key(chunk_keys_around(center)[i as int]));
            match self.get(key) {
                Some(c) => out.push(c),
                None => {},
            }
            i += 1;
        }
        out
    }
}

/// Loading every missing chunk loads them all: once each chunk that
/// `missing_chunks` lists for `center` has been inserted into a manager that
/// held `before`, every chunk around `center` is loaded, as
/// `get_active_chunks` asks.
pub proof fn lemma_loading_missing_chunks_completes<T>(before: Map<IVec2, T>, after: Map<IVec2, T>, center: IVec2)
    requires
        forall|k: IVec2| before.contains_key(k) ==> #[trigger] after.contains_key(k),
        forall|k: IVec2|
            #[trigger] missing_around(before, center).contains(k) ==> after.contains_key(k),
    ensures
        forall|n: int| 0 <= n < CHUNK_LOAD_SPAN * CHUNK_LOAD_SPAN ==> after.contains_key(
            #[trigger] chunk_keys_around(center)[n],
        ),
{
    let pred = |k: IVec2| !before.contains_key(k);
    assert(missing_around(before, center) == chunk_keys_around(center).filter(pred));
    assert forall|n: int| 0 <= n < CHUNK_LOAD_SPAN * CHUNK_LOAD_SPAN implies after.contains_key(
        #[trigger] chunk_keys_around(center)[n],
    ) by {
        let k = chunk_keys_around(center)[n];
        if !before.contains_key(k) {
            chunk_keys_around(center).lemma_filter_contains(pred, n);
            assert(missing_around(before, center).contains(k));
        }
    }
}

/// World grid position of the corner of chunk `key`: chunks are centered on
/// multiples of `CHUNK_SIZE`.
pub fn chunk_base_pos(key: IVec2) -> (r: IVec2)
    requires
        -134217727 <= key.x <= 134217727,
        -134217727 <= key.y <= 134217727,
    ensures
        r == (IVec2 { x: (CHUNK_SIZE * key.x - CHUNK_SIZE / 2) as i32, y: (CHUNK_SIZE * key.y - CHUNK_SIZE / 2) as i32 }),
{
    vec2(16 * key.x - 8, 16 * key.y - 8)
}

} // verus!
