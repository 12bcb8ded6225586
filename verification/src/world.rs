use vstd::prelude::*;

use crate::chunk::{
    chunk_covers, find_chunk, find_chunk_index, find_portal, world_x_at, world_y_at, Chunk,
    ChunkModel, ChunkSource, Portal, CHUNK_HEIGHT, CHUNK_WIDTH, VOID_TILE,
};
use crate::surface::{cell_at, Surface};
use crate::vector::Vector2D;
use vstd::arithmetic::div_mod::{
    lemma_div_is_ordered, lemma_fundamental_div_mod, lemma_fundamental_div_mod_converse,
    lemma_mod_bound,
};

verus! {

/// The chunk coordinate containing a world position: floor division by the
/// chunk dimensions, so that chunk boundaries are seamless across the origin.
pub open spec fn chunk_coord(wp: Vector2D) -> Vector2D {
    Vector2D {
        x: (wp.x as int / CHUNK_WIDTH as int) as i32,
        y: (wp.y as int / CHUNK_HEIGHT as int) as i32,
    }
}

/// The chunk-local coordinates of a world position: the true (non-negative)
/// remainder modulo the chunk dimensions.
pub open spec fn local_x_of(wp: Vector2D) -> int {
    wp.x as int % CHUNK_WIDTH as int
}

pub open spec fn local_y_of(wp: Vector2D) -> int {
    wp.y as int % CHUNK_HEIGHT as int
}

/// The tile a world query yields from a cache: the owning chunk's tile where
/// that chunk is cached, the blank sentinel where it is not.
pub open spec fn world_tile(cache: Seq<ChunkModel>, wp: Vector2D) -> char {
    match find_chunk(cache, chunk_coord(wp)) {
        Some(m) => m.tile_at(local_x_of(wp), local_y_of(wp)),
        None => VOID_TILE,
    }
}

/// The portal a world query yields from a cache, if any.
pub open spec fn world_portal(cache: Seq<ChunkModel>, wp: Vector2D) -> Option<Portal> {
    match find_chunk(cache, chunk_coord(wp)) {
        Some(m) => find_portal(
            m.portals,
            Vector2D { x: local_x_of(wp) as i32, y: local_y_of(wp) as i32 },
        ),
        None => None,
    }
}

/// Division of an `i32` by a positive chunk dimension stays within `i32`,
/// and the remainder is a valid local coordinate.
proof fn lemma_chunk_div_bounds(x: int, d: int)
    requires
        0 < d,
        i32::MIN <= x <= i32::MAX,
    ensures
        i32::MIN <= x / d <= i32::MAX,
        0 <= x % d < d,
{
    lemma_fundamental_div_mod(x, d);
    lemma_mod_bound(x, d);
    let q = x / d;
    let r = x % d;
    assert(x == d * q + r);
    if q > i32::MAX {
        assert(d * q >= q) by (nonlinear_arith)
            requires
                d >= 1,
                q > 0,
        ;
        assert(false);
    }
    if q < i32::MIN {
        assert(d * q <= d * (i32::MIN - 1)) by (nonlinear_arith)
            requires
                d >= 1,
                q <= i32::MIN - 1,
        ;
        assert(d * (i32::MIN - 1) <= i32::MIN - d) by (nonlinear_arith)
            requires
                d >= 1,
        ;
        assert(x == d * q + r < i32::MIN);
        assert(false);
    }
}

/// Quotients of inputs twice the `i32` range by a small positive divisor
/// stay within `i32`.
proof fn lemma_wide_div_bounds(x: int, d: int)
    requires
        2 <= d <= 128,
        2 * (i32::MIN as int) <= x <= 2 * (i32::MAX as int),
    ensures
        i32::MIN <= x / d <= i32::MAX,
        0 <= x % d < d,
{
    lemma_fundamental_div_mod(x, d);
    lemma_mod_bound(x, d);
    let q = x / d;
    let r = x % d;
    if q > i32::MAX {
        assert(d * q >= 2 * q) by (nonlinear_arith)
            requires
                d >= 2,
                q > 0,
        ;
        assert(false);
    }
    if q < i32::MIN {
        assert(d * q <= d * (i32::MIN - 1)) by (nonlinear_arith)
            requires
                d >= 2,
                q <= i32::MIN - 1,
        ;
        assert(d * (i32::MIN - 1) <= 2 * (i32::MIN as int) - d) by (nonlinear_arith)
            requires
                d >= 2,
        ;
        assert(false);
    }
}

/// Quotients of `i32` inputs by a small positive divisor land well inside the
/// `i32` range, leaving headroom for the neighbourhood offsets.
proof fn lemma_half_div_bounds(x: int, d: int)
    requires
        2 <= d <= 128,
        i32::MIN <= x <= i32::MAX,
    ensures
        i32::MIN / 2 <= x / d <= i32::MAX / 2,
{
    lemma_fundamental_div_mod(x, d);
    lemma_mod_bound(x, d);
    let q = x / d;
    let r = x % d;
    if q > i32::MAX / 2 {
        assert(d * q >= 2 * q) by (nonlinear_arith)
            requires
                d >= 2,
                q > 0,
        ;
        assert(false);
    }
    if q < i32::MIN / 2 {
        assert(d * q <= d * (i32::MIN / 2 - 1)) by (nonlinear_arith)
            requires
                d >= 2,
                q <= i32::MIN / 2 - 1,
        ;
        assert(d * (i32::MIN / 2 - 1) <= 2 * (i32::MIN / 2) - d) by (nonlinear_arith)
            requires
                d >= 2,
        ;
        assert(false);
    }
}

/// The 3-by-3 neighbourhood of chunk coordinates around `wc`, in the order
/// the render loop visits them.
pub open spec fn window_positions(wc: Vector2D) -> Seq<Vector2D> {
    Seq::new(
        9,
        |k: int|
            Vector2D { x: (wc.x + (k % 3) - 1) as i32, y: (wc.y + (k / 3) - 1) as i32 },
    )
}

/// Whether chunk coordinate `cp` lies in the 3-by-3 neighbourhood of `wc`.
pub open spec fn in_window(wc: Vector2D, cp: Vector2D) -> bool {
    &&& -1 <= cp.x - wc.x <= 1
    &&& -1 <= cp.y - wc.y <= 1
}

/// Whether `cp` is among the first `k` visited neighbourhood coordinates.
pub open spec fn in_prefix(wc: Vector2D, cp: Vector2D, k: int) -> bool {
    exists|j: int| 0 <= j < k && window_positions(wc)[j] == cp
}

/// One step of on-demand loading: cache the chunk at `p` only if `p` is not
/// cached yet and the source has it; a load failure is silently skipped.
pub open spec fn load_step(
    cache: Seq<ChunkModel>,
    source: Seq<ChunkModel>,
    p: Vector2D,
) -> Seq<ChunkModel> {
    if find_chunk(cache, p) is None && find_chunk(source, p) is Some {
        cache.push(find_chunk(source, p).unwrap())
    } else {
        cache
    }
}

/// The cache after attempting to load each position of `ps` in turn.
pub open spec fn load_missing(
    cache: Seq<ChunkModel>,
    source: Seq<ChunkModel>,
    ps: Seq<Vector2D>,
) -> Seq<ChunkModel>
    decreases ps.len(),
{
    if ps.len() == 0 {
        cache
    } else {
        load_missing(load_step(cache, source, ps[0]), source, ps.drop_first())
    }
}

/// Appending one position to the load order applies one `load_step` to the
/// cache the earlier positions produced.
pub proof fn lemma_load_missing_snoc(
    cache: Seq<ChunkModel>,
    source: Seq<ChunkModel>,
    ps: Seq<Vector2D>,
    p: Vector2D,
)
    ensures
        load_missing(cache, source, ps.push(p)) == load_step(
            load_missing(cache, source, ps),
            source,
            p,
        ),
    decreases ps.len(),
{
    if ps.len() == 0 {
        assert(ps.push(p)[0] == p);
        assert(ps.push(p).drop_first() =~= Seq::<Vector2D>::empty());
        assert(load_missing(cache, source, ps.push(p)) == load_missing(
            load_step(cache, source, p),
            source,
            ps.push(p).drop_first(),
        ));
        assert(load_missing(load_step(cache, source, p), source, ps.push(p).drop_first())
            == load_step(cache, source, p));
    } else {
        assert(ps.push(p)[0] == ps[0]);
        assert(ps.push(p).drop_first() =~= ps.drop_first().push(p));
        assert(load_missing(cache, source, ps.push(p)) == load_missing(
            load_step(cache, source, ps[0]),
            source,
            ps.drop_first().push(p),
        ));
        assert(load_missing(cache, source, ps) == load_missing(
            load_step(cache, source, ps[0]),
            source,
            ps.drop_first(),
        ));
        lemma_load_missing_snoc(load_step(cache, source, ps[0]), source, ps.drop_first(), p);
    }
}

/// Looking a position up after a push sees the pushed chunk at its own
/// position and is otherwise unchanged.
pub proof fn lemma_find_after_push(ms: Seq<ChunkModel>, m: ChunkModel, q: Vector2D)
    ensures
        find_chunk(ms.push(m), q) == (if m.pos == q {
            Some(m)
        } else {
            find_chunk(ms, q)
        }),
{
    assert(ms.push(m).last() == m);
    assert(ms.push(m).drop_last() =~= ms);
}

/// A found chunk sits at the coordinate it was looked up by.
pub proof fn lemma_find_chunk_pos(ms: Seq<ChunkModel>, p: Vector2D)
    requires
        find_chunk(ms, p) is Some,
    ensures
        find_chunk(ms, p).unwrap().pos == p,
    decreases ms.len(),
{
    if ms.len() > 0 && ms.last().pos != p {
        lemma_find_chunk_pos(ms.drop_last(), p);
    }
}

/// A found chunk is one of the sequence's members.
pub proof fn lemma_find_chunk_is_member(ms: Seq<ChunkModel>, p: Vector2D)
    requires
        find_chunk(ms, p) is Some,
    ensures
        exists|i: int| 0 <= i < ms.len() && ms[i] == find_chunk(ms, p).unwrap(),
    decreases ms.len(),
{
    if ms.len() > 0 {
        if ms.last().pos == p {
            assert(ms[ms.len() - 1] == find_chunk(ms, p).unwrap());
        } else {
            lemma_find_chunk_is_member(ms.drop_last(), p);
            let i = choose|i: int|
                0 <= i < ms.drop_last().len() && ms.drop_last()[i] == find_chunk(
                    ms.drop_last(),
                    p,
                ).unwrap();
            assert(ms[i] == find_chunk(ms, p).unwrap());
        }
    }
}

/// A coordinate already cached stays cached, with the same chunk, through
/// any amount of on-demand loading.
proof fn lemma_load_missing_preserves(
    cache: Seq<ChunkModel>,
    source: Seq<ChunkModel>,
    ps: Seq<Vector2D>,
    p: Vector2D,
)
    requires
        find_chunk(cache, p) is Some,
    ensures
        find_chunk(load_missing(cache, source, ps), p) == find_chunk(cache, p),
    decreases ps.len(),
{
    if ps.len() > 0 {
        let c1 = load_step(cache, source, ps[0]);
        if find_chunk(cache, ps[0]) is None && find_chunk(source, ps[0]) is Some {
            lemma_find_chunk_pos(source, ps[0]);
            lemma_find_after_push(cache, find_chunk(source, ps[0]).unwrap(), p);
        }
        lemma_load_missing_preserves(c1, source, ps.drop_first(), p);
    }
}

/// After on-demand loading, every requested coordinate is cached unless the
/// source lacks it.
proof fn lemma_load_missing_covers(
    cache: Seq<ChunkModel>,
    source: Seq<ChunkModel>,
    ps: Seq<Vector2D>,
    j: int,
)
    requires
        0 <= j < ps.len(),
    ensures
        find_chunk(load_missing(cache, source, ps), ps[j]) is Some || find_chunk(source, ps[j])
            is None,
    decreases ps.len(),
{
    let c1 = load_step(cache, source, ps[0]);
    if j == 0 {
        if find_chunk(cache, ps[0]) is Some {
            lemma_load_missing_preserves(c1, source, ps.drop_first(), ps[0]);
        } else if find_chunk(source, ps[0]) is Some {
            lemma_find_chunk_pos(source, ps[0]);
            lemma_find_after_push(cache, find_chunk(source, ps[0]).unwrap(), ps[0]);
            lemma_load_missing_preserves(c1, source, ps.drop_first(), ps[0]);
        }
    } else {
        lemma_load_missing_covers(c1, source, ps.drop_first(), j - 1);
        assert(ps.drop_first()[j - 1] == ps[j]);
    }
}

/// Loading coordinates that are all already settled — cached, or absent
/// from the source — changes nothing.
proof fn lemma_load_missing_noop(
    cache: Seq<ChunkModel>,
    source: Seq<ChunkModel>,
    ps: Seq<Vector2D>,
)
    requires
        forall|j: int|
            0 <= j < ps.len() ==> find_chunk(cache, #[trigger] ps[j]) is Some || find_chunk(
                source,
                ps[j],
            ) is None,
    ensures
        load_missing(cache, source, ps) == cache,
    decreases ps.len(),
{
    if ps.len() > 0 {
        assert(find_chunk(cache, ps[0]) is Some || find_chunk(source, ps[0]) is None);
        assert(load_step(cache, source, ps[0]) == cache);
        assert(forall|j: int|
            0 <= j < ps.drop_first().len() ==> ps.drop_first()[j] == ps[j + 1]);
        lemma_load_missing_noop(cache, source, ps.drop_first());
    }
}

/// The cache grows monotonically: on-demand loading never reloads, evicts
/// or reorders what is already cached, it only appends.
pub proof fn lemma_load_missing_grows(
    cache: Seq<ChunkModel>,
    source: Seq<ChunkModel>,
    ps: Seq<Vector2D>,
)
    ensures
        load_missing(cache, source, ps).len() >= cache.len(),
        forall|i: int|
            0 <= i < cache.len() ==> load_missing(cache, source, ps)[i] == cache[i],
    decreases ps.len(),
{
    if ps.len() > 0 {
        let c1 = load_step(cache, source, ps[0]);
        lemma_load_missing_grows(c1, source, ps.drop_first());
        assert forall|i: int| 0 <= i < cache.len() implies load_missing(cache, source, ps)[i]
            == cache[i] by {
            assert(c1[i] == cache[i]);
            assert(load_missing(c1, source, ps.drop_first())[i] == c1[i]);
        }
    }
}

/// On-demand loading is idempotent: once one render's neighbourhood has been
/// loaded, a second render over the same positions changes the cache not at
/// all — each chunk coordinate is loaded exactly once for the life of the
/// world, however many renders request it.
pub proof fn lemma_load_missing_idempotent(
    cache: Seq<ChunkModel>,
    source: Seq<ChunkModel>,
    ps: Seq<Vector2D>,
)
    ensures
        load_missing(load_missing(cache, source, ps), source, ps) == load_missing(
            cache,
            source,
            ps,
        ),
{
    let c1 = load_missing(cache, source, ps);
    assert forall|j: int| 0 <= j < ps.len() implies find_chunk(c1, #[trigger] ps[j]) is Some
        || find_chunk(source, ps[j]) is None by {
        lemma_load_missing_covers(cache, source, ps, j);
    }
    lemma_load_missing_noop(c1, source, ps);
}

/// The chunk coordinate a surface cell resolves to, viewing from `centre`.
pub open spec fn cell_chunk(centre: Vector2D, sx: int, sy: int) -> Vector2D {
    Vector2D {
        x: (world_x_at(centre, sx) / (CHUNK_WIDTH as int)) as i32,
        y: (world_y_at(centre, sy) / (CHUNK_HEIGHT as int)) as i32,
    }
}

/// What one surface cell holds after a render centred on `centre`: the tile
/// of the cell's own chunk where that chunk is in the neighbourhood and
/// cached, the prior cell everywhere else.
pub open spec fn world_rendered_cell(
    cache: Seq<ChunkModel>,
    wc: Vector2D,
    centre: Vector2D,
    old_cell: char,
    sx: int,
    sy: int,
) -> char {
    let cp = cell_chunk(centre, sx, sy);
    if in_window(wc, cp) && find_chunk(cache, cp) is Some {
        find_chunk(cache, cp).unwrap().tile_at(
            world_x_at(centre, sx) % (CHUNK_WIDTH as int),
            world_y_at(centre, sy) % (CHUNK_HEIGHT as int),
        )
    } else {
        old_cell
    }
}

/// As `world_rendered_cell`, but with only the first `k` neighbourhood
/// coordinates treated as visited; the loop invariant of the render.
pub open spec fn world_prefix_cell(
    cache: Seq<ChunkModel>,
    wc: Vector2D,
    k: int,
    centre: Vector2D,
    old_cell: char,
    sx: int,
    sy: int,
) -> char {
    let cp = cell_chunk(centre, sx, sy);
    if in_prefix(wc, cp, k) && find_chunk(cache, cp) is Some {
        find_chunk(cache, cp).unwrap().tile_at(
            world_x_at(centre, sx) % (CHUNK_WIDTH as int),
            world_y_at(centre, sy) % (CHUNK_HEIGHT as int),
        )
    } else {
        old_cell
    }
}

/// A cell's world position lies in the grid of chunk `p` exactly when the
/// cell's chunk coordinate is `p`; and the cell's local tile index is the
/// true remainder of its world position.
proof fn lemma_cover_iff_cell_chunk(p: Vector2D, centre: Vector2D, sx: int, sy: int)
    requires
        0 <= sx <= i32::MAX,
        0 <= sy <= i32::MAX,
    ensures
        ({
            let wx = world_x_at(centre, sx);
            let wy = world_y_at(centre, sy);
            let cp = cell_chunk(centre, sx, sy);
            &&& cp.x == wx / (CHUNK_WIDTH as int)
            &&& cp.y == wy / (CHUNK_HEIGHT as int)
            &&& 0 <= wx % (CHUNK_WIDTH as int) < CHUNK_WIDTH
            &&& 0 <= wy % (CHUNK_HEIGHT as int) < CHUNK_HEIGHT
            &&& wx % (CHUNK_WIDTH as int) == wx - cp.x * CHUNK_WIDTH
            &&& wy % (CHUNK_HEIGHT as int) == wy - cp.y * CHUNK_HEIGHT
            &&& (chunk_covers(
                ChunkModel { pos: p, tiles: Seq::empty(), portals: Seq::empty() },
                wx,
                wy,
            ) <==> cp == p)
        }),
{
    let wx = world_x_at(centre, sx);
    let wy = world_y_at(centre, sy);
    lemma_wide_div_bounds(wx, CHUNK_WIDTH as int);
    lemma_wide_div_bounds(wy, CHUNK_HEIGHT as int);
    lemma_fundamental_div_mod(wx, CHUNK_WIDTH as int);
    lemma_fundamental_div_mod(wy, CHUNK_HEIGHT as int);
    let cp = cell_chunk(centre, sx, sy);
    if p.x * CHUNK_WIDTH <= wx < p.x * CHUNK_WIDTH + CHUNK_WIDTH && p.y * CHUNK_HEIGHT <= wy
        < p.y * CHUNK_HEIGHT + CHUNK_HEIGHT {
        lemma_fundamental_div_mod_converse(
            wx,
            CHUNK_WIDTH as int,
            p.x as int,
            wx - p.x * CHUNK_WIDTH,
        );
        lemma_fundamental_div_mod_converse(
            wy,
            CHUNK_HEIGHT as int,
            p.y as int,
            wy - p.y * CHUNK_HEIGHT,
        );
    }
}

/// The nine neighbourhood coordinates are pairwise distinct.
proof fn lemma_window_distinct(wc: Vector2D, j: int, k: int)
    requires
        i32::MIN / 2 <= wc.x <= i32::MAX / 2,
        i32::MIN / 2 <= wc.y <= i32::MAX / 2,
        0 <= j < 9,
        0 <= k < 9,
        j != k,
    ensures
        window_positions(wc)[j] != window_positions(wc)[k],
{
    lemma_fundamental_div_mod(j, 3);
    lemma_fundamental_div_mod(k, 3);
    lemma_mod_bound(j, 3);
    lemma_mod_bound(k, 3);
    lemma_div_is_ordered(0, j, 3);
    lemma_div_is_ordered(j, 8, 3);
    lemma_div_is_ordered(0, k, 3);
    lemma_div_is_ordered(k, 8, 3);
}

/// After all nine neighbourhood coordinates are visited, the visited prefix
/// is exactly the 3-by-3 window.
proof fn lemma_window_complete(wc: Vector2D)
    requires
        i32::MIN / 2 <= wc.x <= i32::MAX / 2,
        i32::MIN / 2 <= wc.y <= i32::MAX / 2,
    ensures
        forall|cp: Vector2D| in_prefix(wc, cp, 9) <==> in_window(wc, cp),
{
    assert forall|cp: Vector2D| in_prefix(wc, cp, 9) <==> in_window(wc, cp) by {
        if in_prefix(wc, cp, 9) {
            let j = choose|j: int| 0 <= j < 9 && window_positions(wc)[j] == cp;
            lemma_mod_bound(j, 3);
            lemma_div_is_ordered(0, j, 3);
            lemma_div_is_ordered(j, 8, 3);
            assert(in_window(wc, cp));
        }
        if in_window(wc, cp) {
            let dx = cp.x - wc.x + 1;
            let dy = cp.y - wc.y + 1;
            let j = dy * 3 + dx;
            lemma_fundamental_div_mod_converse(j, 3, dy, dx);
            assert(window_positions(wc)[j] == cp);
            assert(in_prefix(wc, cp, 9));
        }
    }
}

/// Manages the map chunks within the world: a monotonically growing cache
/// from chunk coordinate to chunk, fed on demand from a chunk data source.
pub struct World {
    pub source: ChunkSource,
    pub chunks: Vec<Chunk>,
}

impl World {
    /// The models of the cached chunks, in the order they were loaded.
    pub open spec fn cache(self) -> Seq<ChunkModel> {
        self.chunks@.map_values(|c: Chunk| c@)
    }

    /// The models of the chunks the data source offers.
    pub open spec fn src(self) -> Seq<ChunkModel> {
        self.source@
    }

    pub open spec fn wf(self) -> bool {
        &&& self.source.wf()
        &&& forall|i: int| 0 <= i < self.cache().len() ==> (#[trigger] self.cache()[i]).wf()
    }

    /// A world over the given chunk data source, with nothing cached yet.
    pub fn new(source: ChunkSource) -> (w: World)
        requires
            source.wf(),
        ensures
            w.wf(),
            w.src() == source@,
            w.cache() =~= Seq::<ChunkModel>::empty(),
    {
        let w = World { source, chunks: Vec::new() };
        proof {
            assert(w.cache() =~= Seq::<ChunkModel>::empty());
        }
        w
    }

    /// The chunk coordinate containing `world_position`, by floor division:
    /// negative world positions resolve to negative chunk coordinates.
    pub fn world_to_chunk_position(world_position: Vector2D) -> (c: Vector2D)
        ensures
            c == chunk_coord(world_position),
    {
        proof {
            lemma_chunk_div_bounds(world_position.x as int, CHUNK_WIDTH as int);
            lemma_chunk_div_bounds(world_position.y as int, CHUNK_HEIGHT as int);
        }
        let x = world_position.x.checked_div_euclid(CHUNK_WIDTH).unwrap();
        let y = world_position.y.checked_div_euclid(CHUNK_HEIGHT).unwrap();
        Vector2D { x, y }
    }

    /// The chunk-local coordinates of `world_position`, by true modulo.
    fn world_to_local_position(world_position: Vector2D) -> (l: (usize, usize))
        ensures
            l.0 == local_x_of(world_position),
            l.1 == local_y_of(world_position),
            l.0 < CHUNK_WIDTH,
            l.1 < CHUNK_HEIGHT,
    {
        proof {
            lemma_chunk_div_bounds(world_position.x as int, CHUNK_WIDTH as int);
            lemma_chunk_div_bounds(world_position.y as int, CHUNK_HEIGHT as int);
        }
        let lx = world_position.x.checked_rem_euclid(CHUNK_WIDTH).unwrap();
        let ly = world_position.y.checked_rem_euclid(CHUNK_HEIGHT).unwrap();
        (lx as usize, ly as usize)
    }

    /// How many chunks have been loaded into the cache so far.
    pub fn loaded_chunk_count(&self) -> (n: usize)
        ensures
            n == self.cache().len(),
    {
        self.chunks.len()
    }

    /// The tile at a world position. Consults only the cache: a position in a
    /// chunk that was never loaded yields the blank sentinel, and no load is
    /// triggered.
    pub fn get_tile(&self, world_position: Vector2D) -> (t: char)
        requires
            self.wf(),
        ensures
            t == world_tile(self.cache(), world_position),
    {
        let chunk_position = World::world_to_chunk_position(world_position);
        match find_chunk_index(&self.chunks, chunk_position) {
            Some(i) => {
                proof {
                    assert(self.cache()[i as int].wf());
                }
                let (lx, ly) = World::world_to_local_position(world_position);
                self.chunks[i].get_tile(lx, ly)
            },
            None => VOID_TILE,
        }
    }

    /// Whether the tile at a world position carries the portal marker.
    pub fn is_portal_at(&self, world_position: Vector2D) -> (r: bool)
        requires
            self.wf(),
        ensures
            r == (world_tile(self.cache(), world_position) == '1'),
    {
        self.get_tile(world_position) == '1'
    }

    /// Loads, on demand, every missing chunk of the 3-by-3 chunk
    /// neighbourhood around `centre_position` — a coordinate already cached
    /// is never reloaded; a coordinate the source lacks is silently skipped —
    /// and draws each cached neighbourhood chunk into the surface.
    pub fn render(&mut self, surface: &mut Surface, centre_position: Vector2D)
        requires
            old(self).wf(),
            old(surface)@.wf(),
            old(surface)@.width <= i32::MAX,
            old(surface)@.height <= i32::MAX,
        ensures
            final(self).wf(),
            final(self).src() == old(self).src(),
            final(self).cache() == load_missing(
                old(self).cache(),
                old(self).src(),
                window_positions(chunk_coord(centre_position)),
            ),
            final(surface)@.wf(),
            final(surface)@.width == old(surface)@.width,
            final(surface)@.height == old(surface)@.height,
            forall|sx: int, sy: int|
                0 <= sx < old(surface)@.width && 0 <= sy < old(surface)@.height ==> cell_at(
                    final(surface)@,
                    sx,
                    sy,
                ) == world_rendered_cell(
                    final(self).cache(),
                    chunk_coord(centre_position),
                    centre_position,
                    cell_at(old(surface)@, sx, sy),
                    sx,
                    sy,
                ),
    {
        let wc = World::world_to_chunk_position(centre_position);
        proof {
            lemma_half_div_bounds(centre_position.x as int, CHUNK_WIDTH as int);
            lemma_half_div_bounds(centre_position.y as int, CHUNK_HEIGHT as int);
        }
        let ghost window = window_positions(wc);
        let ghost cache0 = self.cache();
        let ghost surf0 = surface@;
        proof {
            assert(window.take(0) =~= Seq::<Vector2D>::empty());
        }
        let width = surface.width;
        let height = surface.height;
        let mut k: usize = 0;
        while k < 9
            invariant
                self.wf(),
                self.src() == old(self).src(),
                wc == chunk_coord(centre_position),
                i32::MIN / 2 <= wc.x <= i32::MAX / 2,
                i32::MIN / 2 <= wc.y <= i32::MAX / 2,
                window == window_positions(wc),
                cache0 == old(self).cache(),
                surf0 == old(surface)@,
                k <= 9,
                self.cache() == load_missing(cache0, self.src(), window.take(k as int)),
                surface@.wf(),
                surface@.width == width,
                width == surf0.width,
                surface@.height == height,
                height == surf0.height,
                width <= i32::MAX,
                height <= i32::MAX,
                forall|sx: int, sy: int|
                    0 <= sx < width && 0 <= sy < height ==> cell_at(surface@, sx, sy)
                        == world_prefix_cell(
                        self.cache(),
                        wc,
                        k as int,
                        centre_position,
                        cell_at(surf0, sx, sy),
                        sx,
                        sy,
                    ),
            decreases 9 - k,
        {
            let dx = (k % 3) as i32 - 1;
            let dy = (k / 3) as i32 - 1;
            proof {
                lemma_mod_bound(k as int, 3);
                lemma_div_is_ordered(0, k as int, 3);
                lemma_div_is_ordered(k as int, 8, 3);
            }
            let p = Vector2D::new(wc.x + dx, wc.y + dy);
            proof {
                assert(window[k as int] == p);
            }
            let ghost cache_before = self.cache();
            let already = find_chunk_index(&self.chunks, p);
            if already.is_none() {
                match Chunk::load(p, &self.source) {
                    Some(chunk) => {
                        proof {
                            lemma_find_chunk_is_member(self.src(), p);
                        }
                        let ghost m = chunk@;
                        self.chunks.push(chunk);
                        proof {
                            assert(self.cache() =~= cache_before.push(m));
                        }
                    },
                    None => {},
                }
            }
            proof {
                assert(self.cache() == load_step(cache_before, self.src(), p));
                assert(window.take(k + 1) =~= window.take(k as int).push(p));
                lemma_load_missing_snoc(cache0, self.src(), window.take(k as int), p);
            }
            let ghost cache_now = self.cache();
            let ghost surf_mid = surface@;
            proof {
                // The push, if any, changes no lookup at another coordinate,
                // so the invariant's cell description carries over.
                assert forall|sx: int, sy: int|
                    0 <= sx < width && 0 <= sy < height implies cell_at(surf_mid, sx, sy)
                    == world_prefix_cell(
                    cache_now,
                    wc,
                    k as int,
                    centre_position,
                    cell_at(surf0, sx, sy),
                    sx,
                    sy,
                ) by {
                    let cp = cell_chunk(centre_position, sx, sy);
                    assert(cell_at(surf_mid, sx, sy) == world_prefix_cell(
                        cache_before,
                        wc,
                        k as int,
                        centre_position,
                        cell_at(surf0, sx, sy),
                        sx,
                        sy,
                    ));
                    if in_prefix(wc, cp, k as int) {
                        let j = choose|j: int|
                            0 <= j < k as int && window_positions(wc)[j] == cp;
                        assert(0 <= j < k as int && window_positions(wc)[j] == cp);
                        lemma_window_distinct(wc, j, k as int);
                        assert(cp != p);
                        if find_chunk(cache_before, p) is None && find_chunk(self.src(), p)
                            is Some {
                            lemma_find_chunk_pos(self.src(), p);
                            lemma_find_after_push(
                                cache_before,
                                find_chunk(self.src(), p).unwrap(),
                                cp,
                            );
                        }
                        assert(find_chunk(cache_now, cp) == find_chunk(cache_before, cp));
                    } else {
                        assert(world_prefix_cell(
                            cache_now,
                            wc,
                            k as int,
                            centre_position,
                            cell_at(surf0, sx, sy),
                            sx,
                            sy,
                        ) == cell_at(surf0, sx, sy));
                        assert(world_prefix_cell(
                            cache_before,
                            wc,
                            k as int,
                            centre_position,
                            cell_at(surf0, sx, sy),
                            sx,
                            sy,
                        ) == cell_at(surf0, sx, sy));
                    }
                }
            }
            match find_chunk_index(&self.chunks, p) {
                Some(i) => {
                    proof {
                        assert(self.cache()[i as int].wf());
                    }
                    let ghost m = self.chunks@[i as int]@;
                    self.chunks[i].render(surface, centre_position);
                    proof {
                        assert forall|sx: int, sy: int|
                            0 <= sx < width && 0 <= sy < height implies cell_at(surface@, sx, sy)
                            == world_prefix_cell(
                            cache_now,
                            wc,
                            k + 1,
                            centre_position,
                            cell_at(surf0, sx, sy),
                            sx,
                            sy,
                        ) by {
                            lemma_cover_iff_cell_chunk(p, centre_position, sx, sy);
                            let cp = cell_chunk(centre_position, sx, sy);
                            let wx = world_x_at(centre_position, sx);
                            let wy = world_y_at(centre_position, sy);
                            assert(m.pos == p);
                            assert(cell_at(surface@, sx, sy) == crate::chunk::chunk_rendered_cell(
                                m,
                                centre_position,
                                cell_at(surf_mid, sx, sy),
                                sx,
                                sy,
                            ));
                            if cp == p {
                                assert(chunk_covers(m, wx, wy));
                                assert(find_chunk(cache_now, cp) == Some(m));
                                assert(in_prefix(wc, cp, k + 1));
                            } else {
                                assert(!chunk_covers(m, wx, wy));
                                if in_prefix(wc, cp, k + 1) {
                                    let j = choose|j: int|
                                        0 <= j < k + 1 && window_positions(wc)[j] == cp;
                                    assert(j < k);
                                    assert(in_prefix(wc, cp, k as int));
                                }
                            }
                        }
                    }
                },
                None => {
                    proof {
                        assert forall|sx: int, sy: int|
                            0 <= sx < width && 0 <= sy < height implies cell_at(surface@, sx, sy)
                            == world_prefix_cell(
                            cache_now,
                            wc,
                            k + 1,
                            centre_position,
                            cell_at(surf0, sx, sy),
                            sx,
                            sy,
                        ) by {
                            let cp = cell_chunk(centre_position, sx, sy);
                            if cp != p && in_prefix(wc, cp, k + 1) {
                                let j = choose|j: int|
                                    0 <= j < k + 1 && window_positions(wc)[j] == cp;
                                assert(j < k);
                                assert(in_prefix(wc, cp, k as int));
                            }
                        }
                    }
                },
            }
            k = k + 1;
        }
        proof {
            assert(window.take(9) =~= window);
            lemma_window_complete(wc);
            assert forall|sx: int, sy: int|
                0 <= sx < width && 0 <= sy < height implies cell_at(surface@, sx, sy)
                == world_rendered_cell(
                self.cache(),
                wc,
                centre_position,
                cell_at(surf0, sx, sy),
                sx,
                sy,
            ) by {
                let cp = cell_chunk(centre_position, sx, sy);
                assert(in_prefix(wc, cp, 9) <==> in_window(wc, cp));
            }
        }
    }

    /// The portal record at a world position, if its chunk is cached and has
    /// one there. An unloaded chunk yields `None`, never a fault.
    pub fn get_portal_at(&self, world_position: Vector2D) -> (r: Option<Portal>)
        requires
            self.wf(),
        ensures
            r == world_portal(self.cache(), world_position),
    {
        let chunk_position = World::world_to_chunk_position(world_position);
        match find_chunk_index(&self.chunks, chunk_position) {
            Some(i) => {
                let (lx, ly) = World::world_to_local_position(world_position);
                self.chunks[i].get_portal(Vector2D::new(lx as i32, ly as i32))
            },
            None => None,
        }
    }
}

} // verus!
