use vstd::prelude::*;

verus! {

/// Lengths on the board are counted in thousandths of a pixel, so that every
/// quantity of the game (half a cell, nine tenths of a radius, a snapping
/// threshold) is an exact integer.
pub const UNITS_PER_PIXEL: i64 = 1000;

/// The largest cell or board side, in units: a `u16` count of pixels.
pub const MAX_SIDE: i64 = 65_535_000;

/// A point in board space, in thousandths of a pixel.
#[derive(Clone, Copy, Debug, PartialEq, Eq, Structural)]
pub struct Position {
    pub x: i64,
    pub y: i64,
}

/// Centre of cell `i` along an axis divided into cells of side `grid`.
pub open spec fn cell_center(grid: int, i: int) -> int {
    i * grid + grid / 2
}

/// The playfield: a grid of square cells and the centre of each cell.
///
/// `midpoints[row]` holds the centre y of that row and the centre x of each
/// of its columns, in column order.
pub struct Board {
    pub midpoints: Vec<(i64, Vec<i64>)>,
    pub grid_size: i64,
    pub width: i64,
    pub height: i64,
}

impl Board {
    pub open spec fn n_rows(&self) -> int {
        self.midpoints@.len() as int
    }

    pub open spec fn n_cols(&self) -> int {
        self.width / self.grid_size
    }

    /// The table of centres agrees with the grid, and every side is a whole
    /// number of cells.
    pub open spec fn wf(&self) -> bool {
        &&& 0 < self.grid_size <= MAX_SIDE
        &&& self.grid_size % 2 == 0
        &&& 0 <= self.width <= MAX_SIDE
        &&& 0 <= self.height <= MAX_SIDE
        &&& self.width == self.n_cols() * self.grid_size
        &&& self.height == self.n_rows() * self.grid_size
        &&& forall|i: int|
            #![trigger self.midpoints@[i]]
            0 <= i < self.n_rows() ==> {
                &&& self.midpoints@[i].0 == cell_center(self.grid_size as int, i)
                &&& self.midpoints@[i].1@.len() == self.n_cols()
                &&& forall|j: int|
                    0 <= j < self.n_cols() ==> #[trigger] self.midpoints@[i].1@[j]
                        == cell_center(self.grid_size as int, j)
            }
    }

    /// At least one cell: something can stand on the board.
    pub open spec fn nonempty(&self) -> bool {
        self.n_rows() > 0 && self.n_cols() > 0
    }

    /// The centre of the cell that contains `pos`, if that cell is on the board.
    pub open spec fn midpoint_of(&self, pos: Position) -> Option<Position> {
        let g = self.grid_size as int;
        let (x, y) = (pos.x as int, pos.y as int);
        if 0 <= x && 0 <= y && x / g < self.n_cols() && y / g < self.n_rows() {
            Some(Position { x: cell_center(g, x / g) as i64, y: cell_center(g, y / g) as i64 })
        } else {
            None
        }
    }

    /// Whether `pos` is the centre of some cell of the board.
    pub open spec fn is_midpoint(&self, pos: Position) -> bool {
        exists|row: int, col: int|
            0 <= row < self.n_rows() && 0 <= col < self.n_cols() && pos.x == cell_center(
                self.grid_size as int,
                col,
            ) && pos.y == cell_center(self.grid_size as int, row)
    }

    /// Divides a screen of `screen_w` by `screen_h` pixels into whole cells of
    /// `grid_size` pixels; what does not fill a whole cell is left out.
    pub fn new(screen_w: u16, screen_h: u16, grid_size: u16) -> (r: Self)
        requires
            grid_size > 0,
        ensures
            r.wf(),
            r.grid_size == grid_size as int * UNITS_PER_PIXEL,
            r.n_cols() == screen_w as int / grid_size as int,
            r.n_rows() == screen_h as int / grid_size as int,
            r.width == r.n_cols() * r.grid_size,
            r.height == r.n_rows() * r.grid_size,
    {
        let grid: i64 = grid_size as i64 * UNITS_PER_PIXEL;
        let n_x_box: usize = (screen_w / grid_size) as usize;
        let n_y_box: usize = (screen_h / grid_size) as usize;
        let half: i64 = grid / 2;
        proof {
            vstd::arithmetic::div_mod::lemma_div_is_ordered_by_denominator(
                screen_w as int,
                1,
                grid_size as int,
            );
            vstd::arithmetic::div_mod::lemma_div_is_ordered_by_denominator(
                screen_h as int,
                1,
                grid_size as int,
            );
        }
        let mut row_midpts: Vec<i64> = Vec::with_capacity(n_x_box);
        let mut j: usize = 0;
        while j < n_x_box
            invariant
                j <= n_x_box <= 65535,
                grid == grid_size as int * 1000,
                0 < grid_size,
                half == grid / 2,
                row_midpts@.len() == j,
                forall|k: int| 0 <= k < j ==> #[trigger] row_midpts@[k] == cell_center(grid as int, k),
            decreases n_x_box - j,
        {
            proof {
                vstd::arithmetic::mul::lemma_mul_upper_bound(j as int, 65535, grid as int, 65535000);
            }
            let x: i64 = j as i64 * grid + half;
            row_midpts.push(x);
            j = j + 1;
        }
        let mut midpoints: Vec<(i64, Vec<i64>)> = Vec::with_capacity(n_y_box);
        let mut i: usize = 0;
        while i < n_y_box
            invariant
                i <= n_y_box <= 65535,
                grid == grid_size as int * 1000,
                0 < grid_size,
                half == grid / 2,
                row_midpts@.len() == n_x_box,
                forall|k: int|
                    0 <= k < n_x_box ==> #[trigger] row_midpts@[k] == cell_center(grid as int, k),
                midpoints@.len() == i,
                forall|r: int|
                    #![trigger midpoints@[r]]
                    0 <= r < i ==> {
                        &&& midpoints@[r].0 == cell_center(grid as int, r)
                        &&& midpoints@[r].1@ == row_midpts@
                    },
            decreases n_y_box - i,
        {
            proof {
                vstd::arithmetic::mul::lemma_mul_upper_bound(i as int, 65535, grid as int, 65535000);
            }
            let y: i64 = i as i64 * grid + half;
            midpoints.push((y, row_midpts.clone()));
            i = i + 1;
        }
        proof {
            vstd::arithmetic::div_mod::lemma_fundamental_div_mod(screen_w as int, grid_size as int);
            vstd::arithmetic::div_mod::lemma_fundamental_div_mod(screen_h as int, grid_size as int);
            vstd::arithmetic::div_mod::lemma_mod_pos_bound(screen_w as int, grid_size as int);
            vstd::arithmetic::div_mod::lemma_mod_pos_bound(screen_h as int, grid_size as int);
            assert(n_x_box as int * grid == (grid_size as int * n_x_box as int) * 1000)
                by (nonlinear_arith)
                requires grid == grid_size as int * 1000;
            assert(n_y_box as int * grid == (grid_size as int * n_y_box as int) * 1000)
                by (nonlinear_arith)
                requires grid == grid_size as int * 1000;
        }
        let width: i64 = n_x_box as i64 * grid;
        let height: i64 = n_y_box as i64 * grid;
        let r = Board { grid_size: grid, midpoints, height, width };
        proof {
            vstd::arithmetic::div_mod::lemma_div_multiples_vanish(n_x_box as int, grid as int);
            assert(n_x_box as int * grid == grid * n_x_box as int) by (nonlinear_arith);
        }
        r
    }

    /// Looks up the centre of the cell containing `pos`; `None` when that cell
    /// lies outside the board. A lookup, not a clamp.
    pub fn current_midpts(&self, pos: Position) -> (r: Option<Position>)
        requires
            self.wf(),
        ensures
            r == self.midpoint_of(pos),
    {
        if pos.x < 0 || pos.y < 0 {
            return None;
        }
        let x_idx: u64 = pos.x as u64 / self.grid_size as u64;
        let y_idx: u64 = pos.y as u64 / self.grid_size as u64;
        if y_idx < self.midpoints.len() as u64 && x_idx < self.midpoints[y_idx as usize].1.len() as u64 {
            let row = &self.midpoints[y_idx as usize];
            Some(Position { x: row.1[x_idx as usize], y: row.0 })
        } else {
            None
        }
    }
}

/// Every cell centre lies at least half a cell inside the sides of the board.
pub proof fn lemma_center_inside(g: int, i: int, n: int)
    requires
        0 < g,
        g % 2 == 0,
        0 <= i < n,
    ensures
        g / 2 <= cell_center(g, i) <= n * g - g / 2,
{
    assert(i * g <= n * g - g) by (nonlinear_arith)
        requires
            0 <= i < n,
            0 < g,
    ;
    assert(0 <= i * g) by (nonlinear_arith)
        requires
            0 <= i,
            0 < g,
    ;
}

} // verus!
