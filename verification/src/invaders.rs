//! The game world of the simple space-shooter: the invader fleet, the player, and their
//! projectiles.

use crate::controls::Direction;
use crate::geo::Point;
use crate::loader::{frame_key, Assets};
use crate::sprites::{Frame, Sprite, SpriteRef};
use crate::timing::{duration_as_nanos, duration_nanos, NANOS_PER_SEC};
use std::time::Duration;
use vstd::arithmetic::div_mod::lemma_fundamental_div_mod_converse;
use vstd::prelude::*;

verus! {

/// Number of rows in the invader grid.
pub const ROWS: usize = 5;

/// Number of columns in the invader grid.
pub const COLS: usize = 11;

/// Horizontal distance between two invader columns, in pixels.
pub const GRID_X: usize = 16;

/// Vertical distance between two invader rows, in pixels.
pub const GRID_Y: usize = 16;

/// Where the invader fleet starts (left edge).
pub const START_X: usize = 24;

/// Where the invader fleet starts (top edge).
pub const START_Y: usize = 64;

/// Duration of one frame at 60 frames per second, in nanoseconds.
pub const FRAME_NANOS: usize = 16_666_667;

/// Everything you ever wanted to know about Invaders.
#[derive(Debug)]
pub struct Invader {
    pub sprite: SpriteRef,
    pub pos: Point,
    pub score: u32,
}

/// Creates a boundary around the live invaders.
///
/// Used for collision detection and minor optimizations.
#[derive(Clone, Copy, Debug, PartialEq, Eq, Structural)]
pub struct Bounds {
    pub pos: Point,
    pub left_col: usize,
    pub right_col: usize,
    pub top_row: usize,
    pub bottom_row: usize,
}

/// A fleet of invaders.
#[derive(Debug)]
pub struct Invaders {
    pub grid: Vec<Vec<Option<Invader>>>,
    pub stepper: Point,
    pub direction: Direction,
    pub descend: bool,
    pub bounds: Bounds,
}

/// The player entity.
#[derive(Debug)]
pub struct Player {
    pub sprite: SpriteRef,
    pub pos: Point,
    pub dt: usize,
}

/// The shield entity.
#[derive(Debug)]
pub struct Shield {
    // Shield sprite is not referenced because we want to deform it when it gets shot
    pub sprite: Sprite,
    pub pos: Point,
}

/// The laser entity.
#[derive(Debug)]
pub struct Laser {
    pub sprite: SpriteRef,
    pub pos: Point,
    pub dt: usize,
}

/// The cannon entity.
#[derive(Debug)]
pub struct Bullet {
    pub sprite: SpriteRef,
    pub pos: Point,
    pub dt: usize,
}

/// An invader grid: rows of optional invaders.
pub type Grid = Vec<Vec<Option<Invader>>>;

/// The cell at row `r` and column `c` holds a live invader.
pub open spec fn live(grid: Seq<Vec<Option<Invader>>>, r: int, c: int) -> bool {
    &&& 0 <= r < grid.len()
    &&& 0 <= c < grid[r]@.len()
    &&& grid[r]@[c] is Some
}

/// The invader in the cell at row `r` and column `c`.
pub open spec fn invader_at(grid: Seq<Vec<Option<Invader>>>, r: int, c: int) -> Invader {
    grid[r]@[c]->Some_0
}

/// The grid has `ROWS` rows of `COLS` cells.
pub open spec fn grid_shaped(grid: Seq<Vec<Option<Invader>>>) -> bool {
    &&& grid.len() == ROWS
    &&& forall|r: int| 0 <= r < ROWS ==> #[trigger] grid[r]@.len() == COLS
}

/// Some cell of the grid holds a live invader.
pub open spec fn any_live(grid: Seq<Vec<Option<Invader>>>) -> bool {
    exists|r: int, c: int| live(grid, r, c)
}

impl Default for Bounds {
    fn default() -> (b: Self)
        ensures
            b.pos == (Point { x: START_X, y: START_Y }),
            b.left_col == 0,
            b.right_col == COLS - 1,
            b.top_row == 0,
            b.bottom_row == ROWS - 1,
    {
        Bounds {
            pos: Point::new(START_X, START_Y),
            left_col: 0,
            right_col: COLS - 1,
            top_row: 0,
            bottom_row: ROWS - 1,
        }
    }
}

/// The bounding box of a fleet, as `(top, right, bottom, left)`.
pub open spec fn fleet_box(b: Bounds) -> (int, int, int, int) {
    let width = (b.right_col - b.left_col + 1) * GRID_X;
    let height = (b.bottom_row - b.top_row + 1) * GRID_Y;
    (b.pos.y as int, b.pos.x + width, b.pos.y + height, b.pos.x as int)
}

/// The bounds name columns and rows of the grid, in order, and the box they describe fits in
/// a `usize`.
pub open spec fn bounds_ordered(b: Bounds) -> bool {
    &&& b.left_col <= b.right_col < COLS
    &&& b.top_row <= b.bottom_row < ROWS
    &&& fleet_box(b).1 <= usize::MAX
    &&& fleet_box(b).2 <= usize::MAX
}

/// Every live invader lies within the rows and columns of the bounds.
pub open spec fn live_within_bounds(grid: Seq<Vec<Option<Invader>>>, b: Bounds) -> bool {
    forall|r: int, c: int|
        #[trigger] live(grid, r, c) ==> b.top_row <= r <= b.bottom_row && b.left_col <= c
            <= b.right_col
}

impl Invaders {
    /// Compute the bounding box for the Invader fleet.
    ///
    /// Returns a tuple of `(top, right, bottom, left)`, e.g. in CSS clockwise order.
    pub fn get_bounds(&self) -> (r: (usize, usize, usize, usize))
        requires
            bounds_ordered(self.bounds),
        ensures
            r.0 == fleet_box(self.bounds).0,
            r.1 == fleet_box(self.bounds).1,
            r.2 == fleet_box(self.bounds).2,
            r.3 == fleet_box(self.bounds).3,
    {
        let width = (self.bounds.right_col - self.bounds.left_col + 1) * GRID_X;
        let height = (self.bounds.bottom_row - self.bounds.top_row + 1) * GRID_Y;

        let top = self.bounds.pos.y;
        let bottom = top + height;
        let left = self.bounds.pos.x;
        let right = left + width;

        (top, right, bottom, left)
    }

    /// Resize the bounds to fit the live invaders.
    ///
    /// Returns `true` when all invaders have been destroyed; the bounds are then unchanged.
    /// Otherwise the bounds become the smallest rows and columns that hold every live invader,
    /// and the bounding box moves with its top-left cell.
    pub fn shrink_bounds(&mut self) -> (done: bool)
        requires
            grid_shaped(old(self).grid@),
            shrink_fits(old(self).grid@, old(self).bounds),
        ensures
            done == !any_live(old(self).grid@),
            final(self).grid == old(self).grid,
            final(self).stepper == old(self).stepper,
            final(self).direction == old(self).direction,
            final(self).descend == old(self).descend,
            done ==> final(self).bounds == old(self).bounds,
            !done ==> shrunk(final(self).grid@, old(self).bounds, final(self).bounds),
            !done ==> final(self).bounds.left_col <= final(self).bounds.right_col < COLS,
            !done ==> final(self).bounds.top_row <= final(self).bounds.bottom_row < ROWS,
            !done && bounds_ordered(old(self).bounds) && live_within_bounds(
                old(self).grid@,
                old(self).bounds,
            ) ==> bounds_ordered(final(self).bounds),
    {
        let mut top = ROWS;
        let mut right: usize = 0;
        let mut bottom: usize = 0;
        let mut left = COLS;
        let ghost mut found = false;
        let ghost mut top_w: int = 0;
        let ghost mut bottom_w: int = 0;
        let ghost mut left_w: int = 0;
        let ghost mut right_w: int = 0;

        // Scan through the entire grid
        let mut y: usize = 0;
        while y < self.grid.len()
            invariant
                grid_shaped(self.grid@),
                0 <= y <= ROWS,
                forall|r: int, c: int|
                    #[trigger] live(self.grid@, r, c) && r < y ==> top <= r <= bottom && left <= c
                        <= right,
                found ==> live(self.grid@, top as int, top_w) && live(self.grid@, bottom as int, bottom_w)
                    && live(self.grid@, left_w, left as int) && live(self.grid@, right_w, right as int),
                !found ==> top == ROWS && bottom == 0 && left == COLS && right == 0,
            decreases ROWS - y,
        {
            let row = &self.grid[y];
            let mut x: usize = 0;
            while x < row.len()
                invariant
                    grid_shaped(self.grid@),
                    0 <= y < ROWS,
                    0 <= x <= COLS,
                    row@ == self.grid@[y as int]@,
                    forall|r: int, c: int|
                        #[trigger] live(self.grid@, r, c) && (r < y || (r == y && c < x)) ==> top
                            <= r <= bottom && left <= c <= right,
                    found ==> live(self.grid@, top as int, top_w) && live(self.grid@, bottom as int, bottom_w)
                        && live(self.grid@, left_w, left as int) && live(self.grid@, right_w, right as int),
                    !found ==> top == ROWS && bottom == 0 && left == COLS && right == 0,
                decreases COLS - x,
            {
                if row[x].is_some() {
                    // Build a boundary box of invaders in the grid
                    proof {
                        if !found {
                            top_w = x as int;
                            bottom_w = x as int;
                            left_w = y as int;
                            right_w = y as int;
                        }
                    }
                    if top > y {
                        top = y;
                        proof {
                            top_w = x as int;
                        }
                    }
                    if bottom < y {
                        bottom = y;
                        proof {
                            bottom_w = x as int;
                        }
                    }
                    if left > x {
                        left = x;
                        proof {
                            left_w = y as int;
                        }
                    }
                    if right < x {
                        right = x;
                        proof {
                            right_w = y as int;
                        }
                    }
                    proof {
                        if !found {
                            assert(top == y && bottom == y && left == x && right == x);
                        }
                        found = true;
                    }
                }
                x = x + 1;
            }
            y = y + 1;
        }

        if top > bottom || left > right {
            // No more invaders left alive
            proof {
                if found {
                    assert(live(self.grid@, bottom as int, bottom_w));
                    assert(live(self.grid@, right_w, right as int));
                }
                assert forall|r: int, c: int| !live(self.grid@, r, c) by {
                    if live(self.grid@, r, c) {
                        assert(r < ROWS);
                    }
                }
            }
            return true;
        }
        proof {
            assert(live(self.grid@, top as int, top_w));
        }

        // Adjust the bounding box position
        self.bounds.pos.x = self.bounds.pos.x + (left - self.bounds.left_col) * GRID_X;
        self.bounds.pos.y = self.bounds.pos.y + (top - self.bounds.top_row) * GRID_Y;

        // Adjust the bounding box columns and rows
        self.bounds.left_col = left;
        self.bounds.right_col = right;
        self.bounds.top_row = top;
        self.bounds.bottom_row = bottom;

        proof {
            assert forall|r: int, c: int| #[trigger] live(self.grid@, r, c) implies self.bounds.top_row
                <= r <= self.bounds.bottom_row && self.bounds.left_col <= c
                <= self.bounds.right_col by {
                assert(r < ROWS);
            }
            assert(live(self.grid@, self.bounds.top_row as int, top_w));
            assert(live(self.grid@, self.bounds.bottom_row as int, bottom_w));
            assert(live(self.grid@, left_w, self.bounds.left_col as int));
            assert(live(self.grid@, right_w, self.bounds.right_col as int));
        }
        // No more changes
        false
    }
}

/// Every live invader lies at or below the top row of the bounds `b` and at or right of their
/// left column, and moving the bounding box to the top-left live cell keeps its corner within
/// `usize`.
pub open spec fn shrink_fits(grid: Seq<Vec<Option<Invader>>>, b: Bounds) -> bool {
    &&& forall|r: int, c: int| #[trigger] live(grid, r, c) ==> b.top_row <= r && b.left_col <= c
    &&& any_live(grid) ==> exists|r: int, c: int|
        #[trigger] live(grid, r, c) && b.pos.x + (c - b.left_col) * GRID_X <= usize::MAX
    &&& any_live(grid) ==> exists|r: int, c: int|
        #[trigger] live(grid, r, c) && b.pos.y + (r - b.top_row) * GRID_Y <= usize::MAX
}

/// `b1` is what shrinking the bounds `b0` gives: the tight bounds of the live invaders, with the
/// bounding box moved along with its top-left cell.
pub open spec fn shrunk(grid: Seq<Vec<Option<Invader>>>, b0: Bounds, b1: Bounds) -> bool {
    &&& tight_bounds(grid, b1)
    &&& b1.pos.x == b0.pos.x + (b1.left_col - b0.left_col) * GRID_X
    &&& b1.pos.y == b0.pos.y + (b1.top_row - b0.top_row) * GRID_Y
}

/// Shrinking the bounds a second time changes nothing: shrunk bounds are fit to shrink, and
/// shrink to themselves.
pub proof fn lemma_shrink_twice(grid: Seq<Vec<Option<Invader>>>, b0: Bounds, b1: Bounds, b2: Bounds)
    requires
        shrink_fits(grid, b0),
        shrunk(grid, b0, b1),
    ensures
        shrink_fits(grid, b1),
        shrunk(grid, b1, b2) ==> b2 == b1,
{
    let c = choose|c: int| live(grid, b1.top_row as int, c);
    let r = choose|r: int| live(grid, r, b1.left_col as int);
    assert(live(grid, b1.top_row as int, c));
    assert(live(grid, r, b1.left_col as int));
    if shrunk(grid, b1, b2) {
        lemma_tight_bounds_unique(grid, b1, b2);
    }
}

/// The tight bounds of the live invaders are unique.
pub proof fn lemma_tight_bounds_unique(grid: Seq<Vec<Option<Invader>>>, b1: Bounds, b2: Bounds)
    requires
        tight_bounds(grid, b1),
        tight_bounds(grid, b2),
    ensures
        b1.left_col == b2.left_col,
        b1.right_col == b2.right_col,
        b1.top_row == b2.top_row,
        b1.bottom_row == b2.bottom_row,
{
    let c1 = choose|c: int| live(grid, b1.top_row as int, c);
    let c2 = choose|c: int| live(grid, b2.top_row as int, c);
    let c3 = choose|c: int| live(grid, b1.bottom_row as int, c);
    let c4 = choose|c: int| live(grid, b2.bottom_row as int, c);
    let r1 = choose|r: int| live(grid, r, b1.left_col as int);
    let r2 = choose|r: int| live(grid, r, b2.left_col as int);
    let r3 = choose|r: int| live(grid, r, b1.right_col as int);
    let r4 = choose|r: int| live(grid, r, b2.right_col as int);
    assert(live(grid, b1.top_row as int, c1));
    assert(live(grid, b2.top_row as int, c2));
    assert(live(grid, b1.bottom_row as int, c3));
    assert(live(grid, b2.bottom_row as int, c4));
    assert(live(grid, r1, b1.left_col as int));
    assert(live(grid, r2, b2.left_col as int));
    assert(live(grid, r3, b1.right_col as int));
    assert(live(grid, r4, b2.right_col as int));
}

/// The bounds are the smallest rows and columns that hold every live invader: each live
/// invader lies within them, and each of the four edges holds one.
pub open spec fn tight_bounds(grid: Seq<Vec<Option<Invader>>>, b: Bounds) -> bool {
    &&& live_within_bounds(grid, b)
    &&& exists|c: int| live(grid, b.top_row as int, c)
    &&& exists|c: int| live(grid, b.bottom_row as int, c)
    &&& exists|r: int| live(grid, r, b.left_col as int)
    &&& exists|r: int| live(grid, r, b.right_col as int)
}


/// Position of the cell `(r, c)` in the order in which `get_closest_invader` searches from
/// column `col`: bottom to top within a column, then the next column to the right, wrapping
/// around to the first column.
pub open spec fn closest_order(col: int, r: int, c: int) -> int {
    ((c - col + COLS) % (COLS as int)) * ROWS + (ROWS - 1 - r)
}

/// Position of the cell at column `x` and row `y` in the order in which the fleet steps: left
/// to right within a row, rows from the bottom to the top.
pub open spec fn step_order(x: int, y: int) -> int {
    (ROWS - 1 - y) * COLS + x
}

/// Number of steps from the stepper cell `(x0, y0)` to the cell `(x, y)`, going forward in step
/// order and wrapping around: between 1 and `ROWS * COLS`.
pub open spec fn steps_to(x0: int, y0: int, x: int, y: int) -> int {
    (step_order(x, y) - step_order(x0, y0) - 1) % ((ROWS * COLS) as int) + 1
}

/// The search order visits each cell of the grid once, at a position below `ROWS * COLS`.
pub proof fn lemma_closest_order_bijective(col: int, r1: int, c1: int, r2: int, c2: int)
    requires
        0 <= col < COLS,
        0 <= r1 < ROWS,
        0 <= c1 < COLS,
        0 <= r2 < ROWS,
        0 <= c2 < COLS,
    ensures
        0 <= closest_order(col, r1, c1) < ROWS * COLS,
        closest_order(col, r1, c1) == closest_order(col, r2, c2) ==> r1 == r2 && c1 == c2,
{
}

/// The search moves up a column, or from the top of a column to the bottom of the next one.
pub proof fn lemma_closest_order_next(col: int, r: int, c: int)
    requires
        0 <= col < COLS,
        0 <= r < ROWS,
        0 <= c < COLS,
        closest_order(col, r, c) + 1 < ROWS * COLS,
    ensures
        r > 0 ==> closest_order(col, r - 1, c) == closest_order(col, r, c) + 1,
        r == 0 ==> closest_order(col, ROWS - 1, if c + 1 == COLS { 0 } else { c + 1 })
            == closest_order(col, r, c) + 1,
{
}

impl Invaders {
    /// The invader that fires: the lowest live invader of column `col`, or of the next column
    /// to the right that has one, wrapping around to the first column.
    pub fn get_closest_invader(&self, col: usize) -> (inv: &Invader)
        requires
            grid_shaped(self.grid@),
            col < COLS,
            any_live(self.grid@),
        ensures
            exists|r: int, c: int|
                #![trigger invader_at(self.grid@, r, c)]
                {
                    &&& live(self.grid@, r, c)
                    &&& *inv == invader_at(self.grid@, r, c)
                    &&& forall|r2: int, c2: int|
                        #[trigger] live(self.grid@, r2, c2) ==> closest_order(col as int, r, c)
                            <= closest_order(col as int, r2, c2)
                },
    {
        let ghost col0 = col as int;
        let mut column = col;
        let mut row = ROWS - 1;
        let ghost (wr, wc) = choose|r: int, c: int| live(self.grid@, r, c);
        proof {
            assert forall|r2: int, c2: int| #[trigger] live(self.grid@, r2, c2) implies closest_order(
                col0,
                row as int,
                column as int,
            ) <= closest_order(col0, r2, c2) by {
                lemma_closest_order_bijective(col0, r2, c2, r2, c2);
            }
        }
        loop
            invariant
                grid_shaped(self.grid@),
                col0 == col as int,
                0 <= col0 < COLS,
                row < ROWS,
                column < COLS,
                live(self.grid@, wr, wc),
                forall|r2: int, c2: int|
                    #[trigger] live(self.grid@, r2, c2) ==> closest_order(col0, row as int, column as int)
                        <= closest_order(col0, r2, c2),
            decreases ROWS * COLS - closest_order(col0, row as int, column as int),
        {
            proof {
                lemma_closest_order_bijective(col0, row as int, column as int, wr, wc);
            }
            if self.grid[row][column].is_some() {
                let inv = self.grid[row][column].as_ref().unwrap();
                assert(live(self.grid@, row as int, column as int));
                assert(*inv == invader_at(self.grid@, row as int, column as int));
                let ghost (fr, fc) = (row as int, column as int);
                assert({
                    &&& live(self.grid@, fr, fc)
                    &&& *inv == invader_at(self.grid@, fr, fc)
                    &&& forall|r2: int, c2: int|
                        #[trigger] live(self.grid@, r2, c2) ==> closest_order(col0, fr, fc)
                            <= closest_order(col0, r2, c2)
                });
                return inv;
            }
            let ghost k = closest_order(col0, row as int, column as int);
            let ghost (row0, col1) = (row as int, column as int);
            proof {
                lemma_closest_order_bijective(col0, wr, wc, row0, col1);
                assert(k < closest_order(col0, wr, wc));
                lemma_closest_order_next(col0, row0, col1);
            }
            if row == 0 {
                row = ROWS - 1;
                column = column + 1;
                if column == COLS {
                    column = 0;
                }
            } else {
                row = row - 1;
            }
            proof {
                assert(closest_order(col0, row as int, column as int) == k + 1);
                assert forall|r2: int, c2: int| #[trigger] live(self.grid@, r2, c2) implies closest_order(
                    col0,
                    row as int,
                    column as int,
                ) <= closest_order(col0, r2, c2) by {
                    lemma_closest_order_bijective(col0, r2, c2, row0, col1);
                }
            }
        }
    }
}


/// The step order visits each cell of the grid once, at a position below `ROWS * COLS`.
pub proof fn lemma_step_order_bijective(x1: int, y1: int, x2: int, y2: int)
    requires
        0 <= x1 < COLS,
        0 <= y1 < ROWS,
        0 <= x2 < COLS,
        0 <= y2 < ROWS,
    ensures
        0 <= step_order(x1, y1) < ROWS * COLS,
        step_order(x1, y1) == step_order(x2, y2) ==> x1 == x2 && y1 == y2,
{
}

/// A value below twice the modulus wraps around at most once.
pub proof fn lemma_mod_below_twice(v: int, n: int)
    requires
        0 < n,
        0 <= v < 2 * n,
    ensures
        v % n == if v < n { v } else { v - n },
{
    if v < n {
        lemma_fundamental_div_mod_converse(v, n, 0, v);
    } else {
        lemma_fundamental_div_mod_converse(v, n, 1, v - n);
    }
}

/// Find the next live invader after the stepper, in step order, and move the stepper to it.
///
/// Returns the invader and whether the search wrapped around from the last cell to the first
/// one; after such a full cycle the invader found leads the fleet.
pub fn next_invader<'a>(invaders: &'a mut Grid, stepper: &mut Point) -> (res: (&'a mut Invader, bool))
    requires
        grid_shaped(old(invaders)@),
        old(stepper).x < COLS,
        old(stepper).y < ROWS,
        any_live(old(invaders)@),
    ensures
        final(stepper).x < COLS,
        final(stepper).y < ROWS,
        live(old(invaders)@, final(stepper).y as int, final(stepper).x as int),
        forall|r: int, c: int|
            #[trigger] live(old(invaders)@, r, c) ==> steps_to(
                old(stepper).x as int,
                old(stepper).y as int,
                final(stepper).x as int,
                final(stepper).y as int,
            ) <= steps_to(old(stepper).x as int, old(stepper).y as int, c, r),
        res.1 == (step_order(old(stepper).x as int, old(stepper).y as int) + steps_to(
            old(stepper).x as int,
            old(stepper).y as int,
            final(stepper).x as int,
            final(stepper).y as int,
        ) >= ROWS * COLS),
        *res.0 == invader_at(old(invaders)@, final(stepper).y as int, final(stepper).x as int),
        final(invaders)@.len() == old(invaders)@.len(),
        final(invaders)@[final(stepper).y as int]@ == old(invaders)@[final(stepper).y as int]@.update(
            final(stepper).x as int,
            Some(*final(res.0)),
        ),
        forall|r: int|
            0 <= r < old(invaders)@.len() && r != final(stepper).y ==> #[trigger] final(invaders)@[r]
                == old(invaders)@[r],
{
    let mut is_leader = false;
    let ghost x0 = stepper.x as int;
    let ghost y0 = stepper.y as int;
    let ghost n = (ROWS * COLS) as int;
    let ghost mut k: int = 0;
    let ghost (wr, wc) = choose|r: int, c: int| live(invaders@, r, c);
    proof {
        lemma_step_order_bijective(x0, y0, x0, y0);
        assert(n == 55);
        assert(step_order(x0, y0) % n == step_order(x0, y0));
        assert forall|r: int, c: int| #[trigger] live(invaders@, r, c) implies steps_to(x0, y0, c, r)
            > 0 by {
            lemma_step_order_bijective(c, r, x0, y0);
        }
    }

    loop
        invariant
            grid_shaped(invaders@),
            invaders@ == old(invaders)@,
            x0 == old(stepper).x,
            y0 == old(stepper).y,
            0 <= x0 < COLS,
            0 <= y0 < ROWS,
            n == ROWS * COLS,
            stepper.x < COLS,
            stepper.y < ROWS,
            0 <= k < n,
            step_order(stepper.x as int, stepper.y as int) == (step_order(x0, y0) + k) % n,
            is_leader == (step_order(x0, y0) + k >= n),
            live(invaders@, wr, wc),
            forall|r: int, c: int| #[trigger] live(invaders@, r, c) ==> steps_to(x0, y0, c, r) > k,
        decreases n - k,
    {
        let ghost (xp, yp) = (stepper.x as int, stepper.y as int);
        proof {
            lemma_step_order_bijective(x0, y0, xp, yp);
            lemma_step_order_bijective(wc, wr, x0, y0);
            lemma_mod_below_twice(step_order(x0, y0) + k, n);
            assert(0 <= (step_order(wc, wr) - step_order(x0, y0) - 1) % n < n);
            assert(k + 1 <= n);
        }
        // Iterate through the entire grid
        stepper.x = stepper.x + 1;
        if stepper.x >= COLS {
            stepper.x = 0;
            if stepper.y == 0 {
                stepper.y = ROWS - 1;

                // After a full cycle, the next invader will be the leader
                is_leader = true;
            } else {
                stepper.y = stepper.y - 1;
            }
        }
        proof {
            k = k + 1;
            lemma_mod_below_twice(step_order(x0, y0) + k, n);
            assert(step_order(stepper.x as int, stepper.y as int) == (step_order(x0, y0) + k) % n);
            assert(is_leader == (step_order(x0, y0) + k >= n));
            lemma_step_order_bijective(stepper.x as int, stepper.y as int, x0, y0);
            let d = step_order(stepper.x as int, stepper.y as int) - step_order(x0, y0) - 1;
            assert(d == k - 1 || d == k - 1 - n);
            if d < 0 {
                lemma_fundamental_div_mod_converse(d, n, -1, d + n);
            } else {
                lemma_fundamental_div_mod_converse(d, n, 0, d);
            }
            assert(steps_to(x0, y0, stepper.x as int, stepper.y as int) == k);
        }

        if invaders[stepper.y][stepper.x].is_some() {
            proof {
                assert(live(invaders@, stepper.y as int, stepper.x as int));
                assert forall|r: int, c: int| #[trigger] live(invaders@, r, c) implies steps_to(
                    x0,
                    y0,
                    stepper.x as int,
                    stepper.y as int,
                ) <= steps_to(x0, y0, c, r) by {}
            }
            return (invaders[stepper.y][stepper.x].as_mut().unwrap(), is_leader);
        }
        proof {
            assert forall|r: int, c: int| #[trigger] live(invaders@, r, c) implies steps_to(
                x0,
                y0,
                c,
                r,
            ) > k by {
                lemma_step_order_bijective(c, r, stepper.x as int, stepper.y as int);
                lemma_step_order_bijective(c, r, x0, y0);
                let d = step_order(c, r) - step_order(x0, y0) - 1;
                if d < 0 {
                    lemma_fundamental_div_mod_converse(d, n, -1, d + n);
                } else {
                    lemma_fundamental_div_mod_converse(d, n, 0, d);
                }
            }
            assert(steps_to(x0, y0, wc, wr) > k);
            assert(k < n);
        }
    }
}


/// Whole frames in `acc` nanoseconds of accumulated time plus `n` more.
pub open spec fn elapsed_frames(acc: usize, n: u32) -> int {
    (acc + n) / (FRAME_NANOS as int)
}

/// What remains of `acc` nanoseconds of accumulated time plus `n` more, after the whole frames
/// are taken out.
pub open spec fn leftover_nanos(acc: usize, n: u32) -> int {
    (acc + n) % (FRAME_NANOS as int)
}

/// Counting frames loses no time: the whole frames and what is left over make up all the time
/// accumulated.
pub proof fn lemma_frames_keep_time(acc: usize, n: u32)
    ensures
        elapsed_frames(acc, n) * FRAME_NANOS + leftover_nanos(acc, n) == acc + n,
        0 <= leftover_nanos(acc, n) < FRAME_NANOS,
{
    vstd::arithmetic::div_mod::lemma_fundamental_div_mod(acc + n, FRAME_NANOS as int);
}

/// Counting the whole frames of two spans of time one after the other, with what is left over
/// from the first carried into the second, counts as many frames as both spans together, and
/// leaves the same remainder.
pub proof fn lemma_frames_in_two(acc: int, a: int, b: int)
    requires
        acc >= 0,
        a >= 0,
        b >= 0,
    ensures
        (acc + a) / 16_666_667 + ((acc + a) % 16_666_667 + b) / 16_666_667 == (acc + a + b)
            / 16_666_667,
        ((acc + a) % 16_666_667 + b) % 16_666_667 == (acc + a + b) % 16_666_667,
{
    let f: int = 16_666_667;
    let x = acc + a;
    vstd::arithmetic::div_mod::lemma_fundamental_div_mod(x, f);
    let y = x % f + b;
    vstd::arithmetic::div_mod::lemma_fundamental_div_mod(y, f);
    let q = x / f;
    let q2 = y / f;
    let r2 = y % f;
    assert(x + b == (q + q2) * f + r2) by (nonlinear_arith)
        requires
            x == f * q + x % f,
            y == f * q2 + r2,
            y == x % f + b,
    ;
    vstd::arithmetic::div_mod::lemma_fundamental_div_mod_converse(x + b, f, q + q2, r2);
}

/// Add `nanos` nanoseconds to the time accumulated in `dest_dt`, and take out the whole frames.
///
/// Returns the number of whole frames (of `FRAME_NANOS` nanoseconds) in the accumulated time;
/// the remainder stays in `dest_dt`.
pub fn advance_frames(dest_dt: &mut usize, nanos: u32) -> (frames: usize)
    requires
        *old(dest_dt) + nanos <= usize::MAX,
    ensures
        frames == elapsed_frames(*old(dest_dt), nanos),
        *final(dest_dt) == leftover_nanos(*old(dest_dt), nanos),
{
    *dest_dt = *dest_dt + nanos as usize;
    let frames = *dest_dt / FRAME_NANOS;
    proof {
        let d = *dest_dt as int;
        let f = FRAME_NANOS as int;
        vstd::arithmetic::div_mod::lemma_fundamental_div_mod(d, f);
        assert(frames * f <= d) by (nonlinear_arith)
            requires
                frames == d / f,
                d == f * (d / f) + d % f,
                d % f >= 0,
        ;
    }
    *dest_dt = *dest_dt - frames * FRAME_NANOS;
    frames
}

/// Add the fractional second of `dt` to the time accumulated in `dest_dt`, and take out the
/// whole frames.
///
/// Only the part of `dt` below one second counts, what `Duration::subsec_nanos` gives; the
/// result is that of `advance_frames` for that number of nanoseconds.
pub fn update_dt(dest_dt: &mut usize, dt: &Duration) -> (frames: usize)
    requires
        *old(dest_dt) + duration_nanos(*dt) % NANOS_PER_SEC <= usize::MAX,
    ensures
        frames == elapsed_frames(*old(dest_dt), (duration_nanos(*dt) % NANOS_PER_SEC) as u32),
        *final(dest_dt) == leftover_nanos(*old(dest_dt), (duration_nanos(*dt) % NANOS_PER_SEC) as u32),
{
    let n = (duration_as_nanos(dt) % NANOS_PER_SEC) as u32;
    advance_frames(dest_dt, n)
}

/// The value of byte `i` of a cleared screen: transparent black pixels are opaque black.
pub open spec fn cleared_byte(i: int) -> u8 {
    if i % 4 == 3 {
        255
    } else {
        0
    }
}

/// Clear the screen: every pixel becomes opaque black.
pub fn clear(screen: &mut [u8])
    ensures
        final(screen)@.len() == old(screen)@.len(),
        forall|i: int| 0 <= i < final(screen)@.len() ==> #[trigger] final(screen)@[i] == cleared_byte(i),
{
    let len = screen.len();
    let mut i: usize = 0;
    while i < len
        invariant
            len == screen@.len(),
            len == old(screen)@.len(),
            0 <= i <= len,
            forall|j: int| 0 <= j < i ==> #[trigger] screen@[j] == cleared_byte(j),
        decreases len - i,
    {
        screen[i] = if i % 4 == 3 {
            255
        } else {
            0
        };
        i = i + 1;
    }
}

/// The sprite frame of the invaders in row `r`.
pub open spec fn row_frame(r: int) -> Frame {
    if r == 0 {
        Frame::Blipjoy1
    } else if r < 3 {
        Frame::Ferris1
    } else {
        Frame::Cthulhu1
    }
}

/// The offset of an invader sprite within its grid cell, by row.
pub open spec fn row_offset(r: int) -> (int, int) {
    if r == 0 {
        (3, 4)
    } else if r < 3 {
        (2, 5)
    } else {
        (1, 3)
    }
}

/// Where the invader of row `r` and column `c` starts.
pub open spec fn home_position(r: int, c: int) -> Point {
    Point {
        x: (START_X + row_offset(r).0 + c * GRID_X) as usize,
        y: (START_Y + row_offset(r).1 + r * GRID_Y) as usize,
    }
}

/// The assets hold the sprites of the three invader kinds.
pub open spec fn has_invader_sprites(assets: &Assets) -> bool {
    &&& assets.spec_sprites().contains_key(frame_key(Frame::Blipjoy1))
    &&& assets.spec_sprites().contains_key(frame_key(Frame::Ferris1))
    &&& assets.spec_sprites().contains_key(frame_key(Frame::Cthulhu1))
}

/// The invader that a new grid holds at row `r` and column `c`.
pub open spec fn fresh_invader(assets: &Assets, inv: Invader, r: int, c: int) -> bool {
    let cached = assets.spec_sprites()[frame_key(row_frame(r))];
    &&& inv.pos == home_position(r, c)
    &&& inv.score == 10
    &&& inv.sprite.frame == row_frame(r)
    &&& inv.sprite.width == cached.0
    &&& inv.sprite.height == cached.1
    &&& inv.sprite.pixels == cached.2
    &&& inv.sprite.duration == 0
    &&& inv.sprite.dt == 0
}

/// Create a grid of invaders: one row of Blipjoys, two rows of Ferris, two rows of Cthulhus,
/// each in its cell of the grid.
pub fn make_invader_grid(assets: &Assets) -> (grid: Grid)
    requires
        has_invader_sprites(assets),
    ensures
        grid_shaped(grid@),
        forall|r: int, c: int|
            0 <= r < ROWS && 0 <= c < COLS ==> #[trigger] live(grid@, r, c) && fresh_invader(
                assets,
                invader_at(grid@, r, c),
                r,
                c,
            ),
{
    let mut grid: Grid = Vec::new();
    let mut y: usize = 0;
    while y < ROWS
        invariant
            has_invader_sprites(assets),
            0 <= y <= ROWS,
            grid@.len() == y,
            forall|r: int| 0 <= r < y ==> #[trigger] grid@[r]@.len() == COLS,
            fresh_rows(assets, grid@, y as int),
        decreases ROWS - y,
    {
        let (frame, offset_x, offset_y) = if y == 0 {
            (Frame::Blipjoy1, 3, 4)
        } else if y < 3 {
            (Frame::Ferris1, 2, 5)
        } else {
            (Frame::Cthulhu1, 1, 3)
        };
        let mut row: Vec<Option<Invader>> = Vec::new();
        let mut x: usize = 0;
        while x < COLS
            invariant
                has_invader_sprites(assets),
                0 <= y < ROWS,
                0 <= x <= COLS,
                frame == row_frame(y as int),
                (offset_x as int, offset_y as int) == row_offset(y as int),
                row@.len() == x,
                forall|c: int|
                    0 <= c < x ==> (#[trigger] row@[c]) is Some && fresh_invader(
                        assets,
                        row@[c]->Some_0,
                        y as int,
                        c,
                    ),
            decreases COLS - x,
        {
            let pos = Point::new(START_X, START_Y).add(Point::new(offset_x, offset_y)).add(
                Point::new(x, y).mul(Point::new(GRID_X, GRID_Y)),
            );
            let invader = Invader {
                sprite: SpriteRef::with_period(assets, frame, 0),
                pos,
                score: 10,
            };
            row.push(Some(invader));
            x = x + 1;
        }
        let ghost before = grid@;
        let ghost new_row = row@;
        grid.push(row);
        proof {
            assert forall|r: int, c: int|
                0 <= r < y + 1 && 0 <= c < COLS implies #[trigger] live(grid@, r, c) && fresh_invader(
                assets,
                invader_at(grid@, r, c),
                r,
                c,
            ) by {
                assert(fresh_rows(assets, before, y as int));
                if r < y {
                    assert(grid@[r] == before[r]);
                    assert(live(before, r, c));
                } else {
                    assert(grid@[r]@ == new_row);
                    assert(new_row[c] is Some);
                }
            }
            assert(fresh_rows(assets, grid@, y + 1));
        }
        y = y + 1;
    }
    grid
}

/// The first `n` rows of the grid hold the invaders of a new grid.
pub open spec fn fresh_rows(assets: &Assets, grid: Seq<Vec<Option<Invader>>>, n: int) -> bool {
    forall|r: int, c: int|
        0 <= r < n && 0 <= c < COLS ==> #[trigger] live(grid, r, c) && fresh_invader(
            assets,
            invader_at(grid, r, c),
            r,
            c,
        )
}


/// The number of steps from the stepper at order `o0` to the cell at order `oq`: forward, and
/// a full cycle to come back to the same cell.
pub proof fn lemma_steps_to_value(x0: int, y0: int, x: int, y: int)
    requires
        0 <= x0 < COLS,
        0 <= y0 < ROWS,
        0 <= x < COLS,
        0 <= y < ROWS,
    ensures
        steps_to(x0, y0, x, y) == if step_order(x, y) > step_order(x0, y0) {
            step_order(x, y) - step_order(x0, y0)
        } else {
            step_order(x, y) - step_order(x0, y0) + ROWS * COLS
        },
{
    lemma_step_order_bijective(x0, y0, x, y);
    lemma_step_order_bijective(x, y, x0, y0);
    let d = step_order(x, y) - step_order(x0, y0) - 1;
    let n = (ROWS * COLS) as int;
    if d < 0 {
        lemma_fundamental_div_mod_converse(d, n, -1, d + n);
    } else {
        lemma_fundamental_div_mod_converse(d, n, 0, d);
    }
}

} // verus!
