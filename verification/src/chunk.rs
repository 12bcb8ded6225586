use vstd::prelude::*;

use crate::surface::{cell_at, Surface, GAME_AREA_CENTRE_X, GAME_AREA_CENTRE_Y};
use crate::vector::Vector2D;

verus! {

/// Tile-grid width of one chunk, in tiles.
pub const CHUNK_WIDTH: i32 = 100;

/// Tile-grid height of one chunk, in tiles.
pub const CHUNK_HEIGHT: i32 = 50;

/// Number of tiles in one chunk grid: `CHUNK_WIDTH * CHUNK_HEIGHT`.
pub const CHUNK_AREA: usize = 5000;

/// The tile symbol a world query yields where no chunk is cached: blank and
/// never walkable.
pub const VOID_TILE: char = ' ';

/// A chunk-local marker linking to a destination elsewhere in the world,
/// looked up by its local position within the owning chunk.
#[derive(Clone, Copy, PartialEq, Eq, Structural, Debug)]
pub struct Portal {
    pub local_position: Vector2D,
    pub destination: Vector2D,
}

/// Mathematical model of a chunk: its grid address, its tiles in row-major
/// order, and its portal records.
#[verifier::ext_equal]
pub ghost struct ChunkModel {
    pub pos: Vector2D,
    pub tiles: Seq<char>,
    pub portals: Seq<Portal>,
}

impl ChunkModel {
    /// A chunk model is well formed when it holds exactly one tile per grid
    /// cell.
    pub open spec fn wf(self) -> bool {
        self.tiles.len() == CHUNK_AREA
    }

    /// The tile at chunk-local coordinates `(lx, ly)`.
    pub open spec fn tile_at(self, lx: int, ly: int) -> char {
        self.tiles[ly * CHUNK_WIDTH + lx]
    }
}

/// First portal whose local position equals `p`, scanning from the front.
pub open spec fn find_portal(ps: Seq<Portal>, p: Vector2D) -> Option<Portal>
    decreases ps.len(),
{
    if ps.len() == 0 {
        None
    } else if ps[0].local_position == p {
        Some(ps[0])
    } else {
        find_portal(ps.drop_first(), p)
    }
}

/// The chunk model at grid address `pos`, if any; a chunk added later shadows
/// an earlier one at the same address.
pub open spec fn find_chunk(ms: Seq<ChunkModel>, pos: Vector2D) -> Option<ChunkModel>
    decreases ms.len(),
{
    if ms.len() == 0 {
        None
    } else if ms.last().pos == pos {
        Some(ms.last())
    } else {
        find_chunk(ms.drop_last(), pos)
    }
}

/// The world x coordinate shown in surface column `sx` when the view is
/// centred on `focus`.
pub open spec fn world_x_at(focus: Vector2D, sx: int) -> int {
    focus.x + sx - GAME_AREA_CENTRE_X
}

/// The world y coordinate shown in surface row `sy`.
pub open spec fn world_y_at(focus: Vector2D, sy: int) -> int {
    focus.y + sy - GAME_AREA_CENTRE_Y
}

/// Whether world position `(wx, wy)` lies inside chunk `m`'s tile grid.
pub open spec fn chunk_covers(m: ChunkModel, wx: int, wy: int) -> bool {
    &&& m.pos.x * CHUNK_WIDTH <= wx < m.pos.x * CHUNK_WIDTH + CHUNK_WIDTH
    &&& m.pos.y * CHUNK_HEIGHT <= wy < m.pos.y * CHUNK_HEIGHT + CHUNK_HEIGHT
}

/// What one surface cell holds after chunk `m` is drawn: the chunk's tile
/// where the cell falls inside the chunk, the prior cell everywhere else.
pub open spec fn chunk_rendered_cell(
    m: ChunkModel,
    focus: Vector2D,
    old_cell: char,
    sx: int,
    sy: int,
) -> char {
    let wx = world_x_at(focus, sx);
    let wy = world_y_at(focus, sy);
    if chunk_covers(m, wx, wy) {
        m.tile_at(wx - m.pos.x * CHUNK_WIDTH, wy - m.pos.y * CHUNK_HEIGHT)
    } else {
        old_cell
    }
}

/// A fixed-size tile grid at one chunk coordinate, plus its portal records.
/// Immutable after it is produced by `Chunk::load`.
pub struct Chunk {
    pub position: Vector2D,
    pub tiles: Vec<char>,
    pub portals: Vec<Portal>,
}

impl View for Chunk {
    type V = ChunkModel;

    open spec fn view(&self) -> ChunkModel {
        ChunkModel { pos: self.position, tiles: self.tiles@, portals: self.portals@ }
    }
}

impl Chunk {
    /// Assemble a chunk from its grid address, its row-major tiles and its
    /// portals.
    pub fn new(position: Vector2D, tiles: Vec<char>, portals: Vec<Portal>) -> (c: Chunk)
        requires
            tiles@.len() == CHUNK_AREA,
        ensures
            c@ == (ChunkModel { pos: position, tiles: tiles@, portals: portals@ }),
            c@.wf(),
    {
        Chunk { position, tiles, portals }
    }

    /// The tile at chunk-local coordinates, which must already be reduced
    /// into the chunk's grid range.
    pub fn get_tile(&self, local_x: usize, local_y: usize) -> (t: char)
        requires
            self@.wf(),
            local_x < CHUNK_WIDTH,
            local_y < CHUNK_HEIGHT,
        ensures
            t == self@.tile_at(local_x as int, local_y as int),
    {
        proof {
            assert(CHUNK_WIDTH as usize == 100);
            assert(local_y * (CHUNK_WIDTH as usize) == local_y * 100);
            assert(local_y * 100 + local_x < 5000);
        }
        self.tiles[local_y * (CHUNK_WIDTH as usize) + local_x]
    }

    /// The portal at the given chunk-local position, if any.
    pub fn get_portal(&self, local_position: Vector2D) -> (r: Option<Portal>)
        ensures
            r == find_portal(self@.portals, local_position),
    {
        let ghost ps = self@.portals;
        proof {
            assert(ps.skip(0) =~= ps);
        }
        let n = self.portals.len();
        let mut i: usize = 0;
        while i < n
            invariant
                n == self.portals.len(),
                i <= n,
                ps == self@.portals,
                find_portal(ps, local_position) == find_portal(
                    ps.skip(i as int),
                    local_position,
                ),
            decreases n - i,
        {
            let p = self.portals[i];
            proof {
                assert(ps.skip(i as int)[0] == ps[i as int]);
                assert(ps.skip(i as int).drop_first() =~= ps.skip(i + 1));
            }
            if p.local_position.x == local_position.x && p.local_position.y == local_position.y {
                return Some(p);
            }
            i = i + 1;
        }
        proof {
            assert(ps.skip(n as int) =~= Seq::<Portal>::empty());
        }
        None
    }

    /// Draws into the surface every tile of this chunk that falls within the
    /// visible window centred on `world_focus_position`; a pure read of the
    /// chunk, touching no other cell.
    pub fn render(&self, surface: &mut Surface, world_focus_position: Vector2D)
        requires
            self@.wf(),
            old(surface)@.wf(),
            old(surface)@.width <= i32::MAX,
            old(surface)@.height <= i32::MAX,
        ensures
            final(surface)@.wf(),
            final(surface)@.width == old(surface)@.width,
            final(surface)@.height == old(surface)@.height,
            forall|sx: int, sy: int|
                0 <= sx < old(surface)@.width && 0 <= sy < old(surface)@.height ==> cell_at(
                    final(surface)@,
                    sx,
                    sy,
                ) == chunk_rendered_cell(
                    self@,
                    world_focus_position,
                    cell_at(old(surface)@, sx, sy),
                    sx,
                    sy,
                ),
    {
        let focus = world_focus_position;
        let width = surface.width;
        let height = surface.height;
        let cw: i64 = CHUNK_WIDTH as i64;
        let ch: i64 = CHUNK_HEIGHT as i64;
        proof {
            assert(cw == 100 && ch == 50);
        }
        let base_x: i64 = (self.position.x as i64) * cw;
        let base_y: i64 = (self.position.y as i64) * ch;
        let mut sy: usize = 0;
        while sy < height
            invariant
                self@.wf(),
                surface@.wf(),
                surface@.width == width,
                surface@.height == height,
                width <= i32::MAX,
                height <= i32::MAX,
                sy <= height,
                base_x == self@.pos.x * CHUNK_WIDTH,
                base_y == self@.pos.y * CHUNK_HEIGHT,
                forall|x2: int, y2: int|
                    0 <= x2 < width && 0 <= y2 < height && y2 < sy ==> cell_at(surface@, x2, y2)
                        == chunk_rendered_cell(
                        self@,
                        focus,
                        cell_at(old(surface)@, x2, y2),
                        x2,
                        y2,
                    ),
                forall|x2: int, y2: int|
                    0 <= x2 < width && 0 <= y2 < height && y2 >= sy ==> cell_at(surface@, x2, y2)
                        == cell_at(old(surface)@, x2, y2),
            decreases height - sy,
        {
            let wy: i64 = focus.y as i64 + sy as i64 - GAME_AREA_CENTRE_Y as i64;
            let mut sx: usize = 0;
            while sx < width
                invariant
                    self@.wf(),
                    surface@.wf(),
                    surface@.width == width,
                    surface@.height == height,
                    width <= i32::MAX,
                    height <= i32::MAX,
                    sx <= width,
                    sy < height,
                    wy == world_y_at(focus, sy as int),
                    base_x == self@.pos.x * CHUNK_WIDTH,
                    base_y == self@.pos.y * CHUNK_HEIGHT,
                    forall|x2: int, y2: int|
                        0 <= x2 < width && 0 <= y2 < height && (y2 < sy || (y2 == sy && x2 < sx))
                            ==> cell_at(surface@, x2, y2) == chunk_rendered_cell(
                            self@,
                            focus,
                            cell_at(old(surface)@, x2, y2),
                            x2,
                            y2,
                        ),
                    forall|x2: int, y2: int|
                        0 <= x2 < width && 0 <= y2 < height && (y2 > sy || (y2 == sy && x2 >= sx))
                            ==> cell_at(surface@, x2, y2) == cell_at(old(surface)@, x2, y2),
                decreases width - sx,
            {
                let ghost prev = surface@;
                let wx: i64 = focus.x as i64 + sx as i64 - GAME_AREA_CENTRE_X as i64;
                if base_x <= wx && wx < base_x + CHUNK_WIDTH as i64 && base_y <= wy && wy < base_y
                    + CHUNK_HEIGHT as i64 {
                    let lx = (wx - base_x) as usize;
                    let ly = (wy - base_y) as usize;
                    let t = self.get_tile(lx, ly);
                    surface.set_cell(sx, sy, t);
                }
                proof {
                    assert forall|x2: int, y2: int|
                        0 <= x2 < width && 0 <= y2 < height && (y2 < sy || (y2 == sy && x2 < sx
                            + 1)) implies cell_at(surface@, x2, y2) == chunk_rendered_cell(
                        self@,
                        focus,
                        cell_at(old(surface)@, x2, y2),
                        x2,
                        y2,
                    ) by {
                        if x2 == sx && y2 == sy {
                            assert(cell_at(prev, x2, y2) == cell_at(old(surface)@, x2, y2));
                        }
                    }
                    assert forall|x2: int, y2: int|
                        0 <= x2 < width && 0 <= y2 < height && (y2 > sy || (y2 == sy && x2 >= sx
                            + 1)) implies cell_at(surface@, x2, y2) == cell_at(
                        old(surface)@,
                        x2,
                        y2,
                    ) by {
                        assert(cell_at(surface@, x2, y2) == cell_at(prev, x2, y2));
                    }
                }
                sx = sx + 1;
            }
            sy = sy + 1;
        }
    }

    /// Loads the chunk at `position` from the given data source, or reports
    /// absence; the world treats absence as "unloaded, tiles are blank, not
    /// walkable".
    pub fn load(position: Vector2D, source: &ChunkSource) -> (r: Option<Chunk>)
        ensures
            match r {
                Some(c) => find_chunk(source@, position) == Some(c@),
                None => find_chunk(source@, position) is None,
            },
    {
        match find_chunk_index(&source.chunks, position) {
            Some(i) => Some(duplicate_chunk(&source.chunks[i])),
            None => None,
        }
    }
}

/// A chunk data source: the collaborator that, for a chunk coordinate, hands
/// out tile-grid and portal data or indicates absence. Held as plain values;
/// how the data was produced is out of the core's scope.
pub struct ChunkSource {
    pub chunks: Vec<Chunk>,
}

impl View for ChunkSource {
    type V = Seq<ChunkModel>;

    open spec fn view(&self) -> Seq<ChunkModel> {
        self.chunks@.map_values(|c: Chunk| c@)
    }
}

impl ChunkSource {
    /// A source with no chunk data at all.
    pub fn new() -> (s: ChunkSource)
        ensures
            s@ =~= Seq::<ChunkModel>::empty(),
            s.wf(),
    {
        ChunkSource { chunks: Vec::new() }
    }

    /// Every chunk in the source holds a full tile grid.
    pub open spec fn wf(self) -> bool {
        forall|i: int| 0 <= i < self@.len() ==> (#[trigger] self@[i]).wf()
    }

    /// Add one chunk's data to the source.
    pub fn add_chunk(&mut self, chunk: Chunk)
        requires
            old(self).wf(),
            chunk@.wf(),
        ensures
            final(self)@ =~= old(self)@.push(chunk@),
            final(self).wf(),
    {
        self.chunks.push(chunk);
        proof {
            assert(self@ =~= old(self)@.push(chunk@));
        }
    }
}

/// Index of the chunk stored at `position`, scanning so that a later entry
/// shadows an earlier one, as `find_chunk` does.
pub(crate) fn find_chunk_index(chunks: &Vec<Chunk>, position: Vector2D) -> (r: Option<usize>)
    ensures
        match r {
            Some(i) => {
                &&& i < chunks@.len()
                &&& chunks@[i as int].position == position
                &&& find_chunk(chunks@.map_values(|c: Chunk| c@), position) == Some(
                    chunks@[i as int]@,
                )
            },
            None => find_chunk(chunks@.map_values(|c: Chunk| c@), position) is None,
        },
{
    let ghost ms = chunks@.map_values(|c: Chunk| c@);
    proof {
        assert(ms.take(ms.len() as int) =~= ms);
    }
    let mut i: usize = chunks.len();
    while i > 0
        invariant
            ms == chunks@.map_values(|c: Chunk| c@),
            i <= chunks@.len(),
            find_chunk(ms, position) == find_chunk(ms.take(i as int), position),
        decreases i,
    {
        i = i - 1;
        proof {
            assert(ms.take(i + 1).last() == ms[i as int]);
            assert(ms.take(i + 1).drop_last() =~= ms.take(i as int));
        }
        let c = &chunks[i];
        if c.position.x == position.x && c.position.y == position.y {
            return Some(i);
        }
    }
    proof {
        assert(ms.take(0) =~= Seq::<ChunkModel>::empty());
    }
    None
}

/// A deep copy of a chunk, equal to the original in its model.
pub(crate) fn duplicate_chunk(c: &Chunk) -> (r: Chunk)
    ensures
        r@ == c@,
{
    let mut tiles: Vec<char> = Vec::new();
    let mut i: usize = 0;
    let n = c.tiles.len();
    while i < n
        invariant
            n == c.tiles.len(),
            i <= n,
            tiles@ =~= c.tiles@.take(i as int),
        decreases n - i,
    {
        tiles.push(c.tiles[i]);
        i = i + 1;
    }
    let mut portals: Vec<Portal> = Vec::new();
    let mut j: usize = 0;
    let m = c.portals.len();
    while j < m
        invariant
            m == c.portals.len(),
            j <= m,
            portals@ =~= c.portals@.take(j as int),
        decreases m - j,
    {
        portals.push(c.portals[j]);
        j = j + 1;
    }
    proof {
        assert(tiles@ =~= c.tiles@);
        assert(portals@ =~= c.portals@);
    }
    let r = Chunk { position: c.position, tiles, portals };
    proof {
        assert(r@ =~= c@);
    }
    r
}

} // verus!
