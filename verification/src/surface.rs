use vstd::prelude::*;

verus! {

/// Width of the visible game region, in character cells.
pub const GAME_AREA_WIDTH: i32 = 81;

/// Height of the visible game region, in character cells.
pub const GAME_AREA_HEIGHT: i32 = 45;

/// Horizontal centre of the game region; the player glyph is always drawn
/// here while the world scrolls around it.
pub const GAME_AREA_CENTRE_X: i32 = 40;

/// Vertical centre of the game region.
pub const GAME_AREA_CENTRE_Y: i32 = 22;

/// Mathematical model of a drawing surface: its size and its cells in
/// row-major order.
#[verifier::ext_equal]
pub ghost struct SurfaceModel {
    pub width: int,
    pub height: int,
    pub cells: Seq<char>,
}

impl SurfaceModel {
    pub open spec fn wf(self) -> bool {
        &&& 0 <= self.width
        &&& 0 <= self.height
        &&& self.cells.len() == self.width * self.height
    }
}

/// The cell at column `sx` of row `sy`.
pub open spec fn cell_at(s: SurfaceModel, sx: int, sy: int) -> char {
    s.cells[sy * s.width + sx]
}

/// A rectangular character grid that the core draws into. It stands for the
/// named game region of the terminal; flushing it to a real screen is the
/// caller's business.
pub struct Surface {
    pub width: usize,
    pub height: usize,
    pub cells: Vec<char>,
}

impl View for Surface {
    type V = SurfaceModel;

    open spec fn view(&self) -> SurfaceModel {
        SurfaceModel { width: self.width as int, height: self.height as int, cells: self.cells@ }
    }
}

/// Row-major grid indices are in range and injective in the coordinates.
pub proof fn lemma_grid_index(w: int, h: int, x: int, y: int)
    requires
        0 <= x < w,
        0 <= y < h,
    ensures
        0 <= y * w + x < w * h,
{
    assert(0 <= y * w + x < w * h) by (nonlinear_arith)
        requires
            0 <= x < w,
            0 <= y < h,
    ;
}

/// Distinct in-range grid coordinates have distinct row-major indices.
pub proof fn lemma_grid_index_injective(w: int, h: int, x: int, y: int, x2: int, y2: int)
    requires
        0 <= x < w,
        0 <= y < h,
        0 <= x2 < w,
        0 <= y2 < h,
        y2 * w + x2 == y * w + x,
    ensures
        x2 == x && y2 == y,
{
    assert(x2 == x && y2 == y) by (nonlinear_arith)
        requires
            0 <= x < w,
            0 <= y < h,
            0 <= x2 < w,
            0 <= y2 < h,
            y2 * w + x2 == y * w + x,
    ;
}

impl Surface {
    /// A surface of the given size with every cell set to `fill`.
    pub fn new(width: usize, height: usize, fill: char) -> (s: Surface)
        requires
            width * height <= usize::MAX,
        ensures
            s@.wf(),
            s@.width == width,
            s@.height == height,
            forall|sx: int, sy: int|
                0 <= sx < width && 0 <= sy < height ==> cell_at(s@, sx, sy) == fill,
    {
        let n = width * height;
        let mut cells: Vec<char> = Vec::new();
        let mut i: usize = 0;
        while i < n
            invariant
                i <= n,
                cells@.len() == i,
                forall|j: int| 0 <= j < i ==> cells@[j] == fill,
            decreases n - i,
        {
            cells.push(fill);
            i = i + 1;
        }
        let s = Surface { width, height, cells };
        proof {
            assert forall|sx: int, sy: int|
                0 <= sx < width && 0 <= sy < height implies cell_at(s@, sx, sy) == fill by {
                lemma_grid_index(width as int, height as int, sx, sy);
            }
        }
        s
    }

    /// Reset every cell to the background fill.
    pub fn clear(&mut self, fill: char)
        requires
            old(self)@.wf(),
        ensures
            final(self)@.wf(),
            final(self)@.width == old(self)@.width,
            final(self)@.height == old(self)@.height,
            forall|sx: int, sy: int|
                0 <= sx < final(self)@.width && 0 <= sy < final(self)@.height ==> cell_at(
                    final(self)@,
                    sx,
                    sy,
                ) == fill,
    {
        let n = self.cells.len();
        let mut i: usize = 0;
        while i < n
            invariant
                i <= n,
                n == self.cells.len(),
                self.width == old(self).width,
                self.height == old(self).height,
                forall|j: int| 0 <= j < i ==> self.cells@[j] == fill,
            decreases n - i,
        {
            self.cells[i] = fill;
            i = i + 1;
        }
        proof {
            assert forall|sx: int, sy: int|
                0 <= sx < self@.width && 0 <= sy < self@.height implies cell_at(self@, sx, sy)
                == fill by {
                lemma_grid_index(self@.width, self@.height, sx, sy);
            }
        }
    }

    /// Write one character cell.
    pub fn set_cell(&mut self, x: usize, y: usize, c: char)
        requires
            old(self)@.wf(),
            x < old(self)@.width,
            y < old(self)@.height,
        ensures
            final(self)@.wf(),
            final(self)@.width == old(self)@.width,
            final(self)@.height == old(self)@.height,
            forall|sx: int, sy: int|
                0 <= sx < final(self)@.width && 0 <= sy < final(self)@.height ==> cell_at(
                    final(self)@,
                    sx,
                    sy,
                ) == (if sx == x && sy == y {
                    c
                } else {
                    cell_at(old(self)@, sx, sy)
                }),
    {
        let _len = self.cells.len();
        proof {
            lemma_grid_index(self@.width, self@.height, x as int, y as int);
        }
        let idx = y * self.width + x;
        self.cells[idx] = c;
        proof {
            assert forall|sx: int, sy: int|
                0 <= sx < self@.width && 0 <= sy < self@.height implies cell_at(self@, sx, sy)
                == (if sx == x && sy == y {
                    c
                } else {
                    cell_at(old(self)@, sx, sy)
                }) by {
                lemma_grid_index(self@.width, self@.height, sx, sy);
                if sy * self@.width + sx == y as int * self@.width + x as int {
                    lemma_grid_index_injective(
                        self@.width,
                        self@.height,
                        x as int,
                        y as int,
                        sx,
                        sy,
                    );
                }
            }
        }
    }

    /// Read one character cell.
    pub fn get_cell(&self, x: usize, y: usize) -> (c: char)
        requires
            self@.wf(),
            x < self@.width,
            y < self@.height,
        ensures
            c == cell_at(self@, x as int, y as int),
    {
        let _len = self.cells.len();
        proof {
            lemma_grid_index(self@.width, self@.height, x as int, y as int);
        }
        self.cells[y * self.width + x]
    }
}

} // verus!
