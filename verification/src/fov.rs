//! What the player can see right now: a mask over the grid, filled in by
//! whoever computes lines of sight.

use vstd::prelude::*;

verus! {

/// One flag per tile, indexed `[x][y]`: whether the tile is in view.
#[derive(Debug)]
pub struct FovMap {
    pub cells: Vec<Vec<bool>>,
}

impl FovMap {
    /// Whether `(x, y)` is in view. Nothing off the mask is.
    pub open spec fn sees(self, x: int, y: int) -> bool {
        0 <= x < self.cells@.len() && 0 <= y < self.cells@[x]@.len() && self.cells@[x]@[y]
    }

    /// A mask of `width` by `height` tiles with nothing in view.
    pub fn new(width: usize, height: usize) -> (fov: Self)
        ensures
            fov.cells@.len() == width,
            forall|x: int| 0 <= x < width ==> (#[trigger] fov.cells@[x])@.len() == height,
            forall|x: int, y: int| !fov.sees(x, y),
    {
        let mut cells: Vec<Vec<bool>> = Vec::new();
        let mut x: usize = 0;
        while x < width
            invariant
                x <= width,
                cells@.len() == x,
                forall|a: int| 0 <= a < x ==> (#[trigger] cells@[a])@.len() == height,
                forall|a: int, b: int| 0 <= a < x && 0 <= b < height ==> !(#[trigger] cells@[a]@[b]),
            decreases width - x,
        {
            let mut column: Vec<bool> = Vec::new();
            let mut y: usize = 0;
            while y < height
                invariant
                    y <= height,
                    column@.len() == y,
                    forall|b: int| 0 <= b < y ==> !(#[trigger] column@[b]),
                decreases height - y,
            {
                column.push(false);
                y += 1;
            }
            cells.push(column);
            x += 1;
        }
        FovMap { cells }
    }

    /// Marks `(x, y)` as in view or not. A tile off the mask stays out of
    /// view.
    pub fn set(&mut self, x: i32, y: i32, visible: bool)
        ensures
            forall|a: int, b: int|
                final(self).sees(a, b) == if a == x && b == y {
                    visible && 0 <= x < old(self).cells@.len() && 0 <= y < old(self).cells@[a]@.len()
                } else {
                    old(self).sees(a, b)
                },
            final(self).cells@.len() == old(self).cells@.len(),
            forall|a: int|
                0 <= a < old(self).cells@.len() ==> (#[trigger] final(self).cells@[a])@.len() == old(
                    self,
                ).cells@[a]@.len(),
    {
        if x < 0 || y < 0 || x as usize >= self.cells.len() {
            return ;
        }
        if y as usize >= self.cells[x as usize].len() {
            return ;
        }
        self.cells[x as usize][y as usize] = visible;
    }

    /// Whether the tile in column `x`, row `y` is in view.
    pub fn shows(&self, x: usize, y: usize) -> (visible: bool)
        ensures
            visible == self.sees(x as int, y as int),
    {
        if x >= self.cells.len() {
            return false;
        }
        if y >= self.cells[x].len() {
            return false;
        }
        self.cells[x][y]
    }

    /// Whether `(x, y)` is in view.
    pub fn is_in_fov(&self, x: i32, y: i32) -> (visible: bool)
        ensures
            visible == self.sees(x as int, y as int),
    {
        if x < 0 || y < 0 || x as usize >= self.cells.len() {
            return false;
        }
        if y as usize >= self.cells[x as usize].len() {
            return false;
        }
        self.cells[x as usize][y as usize]
    }
}

} // verus!
