//! Tile storage of a tilemap: a row-major grid of optional tiles
//! (`None` = empty/transparent). What a tile looks like, and where the grid
//! sits in the world, is up to the tile type and the tilemap around it.
use vstd::prelude::*;
use crate::grid_index::{cell_index, lemma_cell_in_bounds, lemma_cell_injective};

verus! {

/// Number of occupied slots.
pub open spec fn occupied_count<T>(s: Seq<Option<T>>) -> nat
    decreases s.len(),
{
    if s.len() == 0 {
        0
    } else {
        occupied_count(s.drop_last()) + if s.last() is Some {
            1nat
        } else {
            0nat
        }
    }
}

/// A grid of optional tiles, stored row-major: index = y * width + x.
#[derive(Debug, Clone)]
pub struct TileGrid<T> {
    width: u32,
    height: u32,
    tiles: Vec<Option<T>>,
}

impl<T: Copy> TileGrid<T> {
    /// Width in tiles.
    pub closed spec fn grid_width(&self) -> u32 {
        self.width
    }

    /// Height in tiles.
    pub closed spec fn grid_height(&self) -> u32 {
        self.height
    }

    /// Slots in row-major order.
    pub closed spec fn slots(&self) -> Seq<Option<T>> {
        self.tiles@
    }

    /// One slot per cell.
    pub closed spec fn wf(&self) -> bool {
        &&& self.tiles@.len() == self.width * self.height
        &&& self.width * self.height <= u32::MAX
    }

    /// Slot of cell `(x, y)`.
    pub open spec fn slot(&self, x: int, y: int) -> Option<T> {
        self.slots()[cell_index(self.grid_width() as int, x, y)]
    }

    /// Whether `(x, y)` lies inside the grid.
    pub open spec fn in_grid(&self, x: int, y: int) -> bool {
        0 <= x < self.grid_width() && 0 <= y < self.grid_height()
    }

    /// Create an empty grid.
    pub fn new(width: u32, height: u32) -> (r: Self)
        requires
            width * height <= u32::MAX,
        ensures
            r.wf(),
            r.grid_width() == width,
            r.grid_height() == height,
            r.slots() == Seq::new((width * height) as nat, |i: int| None::<T>),
    {
        let count = (width * height) as usize;
        let mut tiles: Vec<Option<T>> = Vec::new();
        let mut i: usize = 0;
        while i < count
            invariant
                i <= count,
                tiles@.len() == i,
                forall|j: int| 0 <= j < i ==> tiles@[j] is None,
            decreases count - i,
        {
            tiles.push(None);
            i = i + 1;
        }
        assert(tiles@ =~= Seq::new((width * height) as nat, |i: int| None::<T>));
        TileGrid { width, height, tiles }
    }

    /// Width in tiles.
    pub fn width(&self) -> (r: u32)
        ensures
            r == self.grid_width(),
    {
        self.width
    }

    /// Height in tiles.
    pub fn height(&self) -> (r: u32)
        ensures
            r == self.grid_height(),
    {
        self.height
    }

    /// Get a tile at grid position (x, y); `None` outside the grid or for an
    /// empty slot.
    pub fn get(&self, x: u32, y: u32) -> (r: Option<&T>)
        requires
            self.wf(),
        ensures
            r == if self.in_grid(x as int, y as int) {
                match self.slot(x as int, y as int) {
                    Some(t) => Some(&t),
                    None => None,
                }
            } else {
                None
            },
    {
        if x >= self.width || y >= self.height {
            return None;
        }
        proof {
            lemma_cell_in_bounds(self.width as int, self.height as int, x as int, y as int);
        }
        match &self.tiles[(y * self.width + x) as usize] {
            Some(t) => Some(t),
            None => None,
        }
    }

    /// Set a tile at grid position (x, y). No-op outside the grid.
    pub fn set(&mut self, x: u32, y: u32, tile: Option<T>)
        requires
            old(self).wf(),
        ensures
            final(self).wf(),
            final(self).grid_width() == old(self).grid_width(),
            final(self).grid_height() == old(self).grid_height(),
            final(self).slots() == if old(self).in_grid(x as int, y as int) {
                old(self).slots().update(cell_index(old(self).grid_width() as int, x as int, y as int), tile)
            } else {
                old(self).slots()
            },
            forall|px: int, py: int|
                old(self).in_grid(px, py) ==> #[trigger] final(self).slot(px, py) == if px == x && py
                    == y {
                    tile
                } else {
                    old(self).slot(px, py)
                },
    {
        if x < self.width && y < self.height {
            proof {
                lemma_cell_in_bounds(self.width as int, self.height as int, x as int, y as int);
            }
            self.tiles.set((y * self.width + x) as usize, tile);
        }
        proof {
            let cols = self.width as int;
            assert forall|px: int, py: int| old(self).in_grid(px, py) implies #[trigger] self.slot(
                px,
                py,
            ) == if px == x && py == y {
                tile
            } else {
                old(self).slot(px, py)
            } by {
                lemma_cell_in_bounds(cols, self.height as int, px, py);
                if old(self).in_grid(x as int, y as int) && (px != x || py != y) {
                    if cell_index(cols, px, py) == cell_index(cols, x as int, y as int) {
                        lemma_cell_injective(cols, px, py, x as int, y as int);
                    }
                }
            }
        }
    }

    /// Fill a rectangular region with a tile: the cells with
    /// `x <= tx < x + w` and `y <= ty < y + h` that lie inside the grid.
    pub fn fill_rect(&mut self, x: u32, y: u32, w: u32, h: u32, tile: Option<T>)
        requires
            old(self).wf(),
            x + w <= u32::MAX,
            y + h <= u32::MAX,
        ensures
            final(self).wf(),
            final(self).grid_width() == old(self).grid_width(),
            final(self).grid_height() == old(self).grid_height(),
            final(self).slots().len() == old(self).slots().len(),
            forall|px: int, py: int|
                old(self).in_grid(px, py) ==> #[trigger] final(self).slot(px, py) == if x <= px < x
                    + w && y <= py < y + h {
                    tile
                } else {
                    old(self).slot(px, py)
                },
    {
        let width = self.width;
        let height = self.height;
        let x_end = if x + w < width { x + w } else { width };
        let y_end = if y + h < height { y + h } else { height };
        let mut ty = y;
        while ty < y_end
            invariant
                self.wf(),
                self.width == width,
                self.height == height,
                width == old(self).width,
                height == old(self).height,
                self.tiles@.len() == old(self).tiles@.len(),
                x_end <= width,
                y_end <= height,
                x_end == if x + w < width { x + w } else { width as int },
                y_end == if y + h < height { y + h } else { height as int },
                y <= ty,
                ty <= y_end || ty == y,
                forall|px: int, py: int|
                    0 <= px < width && 0 <= py < height ==> #[trigger] self.tiles@[cell_index(
                        width as int,
                        px,
                        py,
                    )] == if x <= px < x_end && y <= py < ty {
                        tile
                    } else {
                        old(self).tiles@[cell_index(width as int, px, py)]
                    },
            decreases y_end - ty,
        {
            let mut tx = x;
            while tx < x_end
                invariant
                    self.wf(),
                    self.width == width,
                    self.height == height,
                    self.tiles@.len() == old(self).tiles@.len(),
                    x_end <= width,
                    y <= ty < y_end,
                    y_end <= height,
                    x <= tx,
                    tx <= x_end || tx == x,
                    forall|px: int, py: int|
                        0 <= px < width && 0 <= py < height ==> #[trigger] self.tiles@[cell_index(
                            width as int,
                            px,
                            py,
                        )] == if (x <= px < x_end && y <= py < ty) || (py == ty && x <= px
                            < tx) {
                            tile
                        } else {
                            old(self).tiles@[cell_index(width as int, px, py)]
                        },
                decreases x_end - tx,
            {
                proof {
                    lemma_cell_in_bounds(width as int, height as int, tx as int, ty as int);
                }
                let ghost before = self.tiles@;
                let ghost idx = cell_index(width as int, tx as int, ty as int);
                self.set(tx, ty, tile);
                proof {
                    assert forall|px: int, py: int|
                        0 <= px < width && 0 <= py < height implies #[trigger] self.tiles@[cell_index(
                            width as int,
                            px,
                            py,
                        )] == if (x <= px < x_end && y <= py < ty) || (py == ty && x <= px
                            < tx + 1) {
                            tile
                        } else {
                            old(self).tiles@[cell_index(width as int, px, py)]
                        } by {
                        lemma_cell_in_bounds(width as int, height as int, px, py);
                        if cell_index(width as int, px, py) == idx {
                            lemma_cell_injective(width as int, px, py, tx as int, ty as int);
                        } else {
                            assert(self.tiles@[cell_index(width as int, px, py)] == before[cell_index(
                                width as int,
                                px,
                                py,
                            )]);
                        }
                    }
                }
                tx = tx + 1;
            }
            ty = ty + 1;
        }
        assert forall|px: int, py: int| old(self).in_grid(px, py) implies #[trigger] self.slot(px, py)
            == if x <= px < x + w && y <= py < y + h {
            tile
        } else {
            old(self).slot(px, py)
        } by {
            assert(self.tiles@[cell_index(width as int, px, py)] == if x <= px < x_end && y <= py
                < y_end {
                tile
            } else {
                old(self).tiles@[cell_index(width as int, px, py)]
            });
        }
    }

    /// Clear all tiles.
    pub fn clear(&mut self)
        requires
            old(self).wf(),
        ensures
            final(self).wf(),
            final(self).grid_width() == old(self).grid_width(),
            final(self).grid_height() == old(self).grid_height(),
            final(self).slots() == Seq::new(old(self).slots().len(), |i: int| None::<T>),
    {
        let n = self.tiles.len();
        let mut i: usize = 0;
        while i < n
            invariant
                self.width == old(self).width,
                self.height == old(self).height,
                n == old(self).tiles@.len(),
                self.tiles@.len() == n,
                i <= n,
                forall|j: int| 0 <= j < i ==> self.tiles@[j] is None,
            decreases n - i,
        {
            self.tiles.set(i, None);
            i = i + 1;
        }
        assert(self.tiles@ =~= Seq::new(old(self).slots().len(), |i: int| None::<T>));
    }

    /// Count of non-empty tiles.
    pub fn tile_count(&self) -> (r: usize)
        ensures
            r == occupied_count(self.slots()),
    {
        let mut count: usize = 0;
        let mut i: usize = 0;
        while i < self.tiles.len()
            invariant
                i <= self.tiles@.len(),
                count == occupied_count(self.tiles@.take(i as int)),
                count <= i,
            decreases self.tiles@.len() - i,
        {
            proof {
                assert(self.tiles@.take(i + 1).drop_last() =~= self.tiles@.take(i as int));
                assert(self.tiles@.take(i + 1).last() == self.tiles@[i as int]);
            }
            if self.tiles[i].is_some() {
                count = count + 1;
            }
            i = i + 1;
        }
        assert(self.tiles@.take(self.tiles@.len() as int) =~= self.tiles@);
        count
    }

    /// Occupied cells `(x, y, tile)` of row `y` with `x0 <= x < x1` that lie
    /// inside the grid, left to right.
    pub open spec fn row_tiles(&self, y: int, x0: int, x1: int) -> Seq<(u32, u32, T)>
        decreases x1 - x0,
    {
        if x1 <= x0 {
            Seq::empty()
        } else {
            let x = x1 - 1;
            let rest = self.row_tiles(y, x0, x);
            if self.in_grid(x, y) && self.slot(x, y) is Some {
                rest.push((x as u32, y as u32, self.slot(x, y)->0))
            } else {
                rest
            }
        }
    }

    /// Occupied cells `(x, y, tile)` with `x0 <= x < x1` and `y0 <= y < y1`
    /// that lie inside the grid, row by row (row-major order).
    pub open spec fn rect_tiles(&self, x0: int, x1: int, y0: int, y1: int) -> Seq<(u32, u32, T)>
        decreases y1 - y0,
    {
        if y1 <= y0 {
            Seq::empty()
        } else {
            self.rect_tiles(x0, x1, y0, y1 - 1) + self.row_tiles(y1 - 1, x0, x1)
        }
    }

    /// The occupied cells `(x, y, tile)` with `x0 <= x < x1` and
    /// `y0 <= y < y1` that lie inside the grid, row by row.
    pub fn occupied_in(&self, x0: u32, y0: u32, x1: u32, y1: u32) -> (r: Vec<(u32, u32, T)>)
        requires
            self.wf(),
        ensures
            r@ == self.rect_tiles(
                x0 as int,
                if x1 < self.grid_width() { x1 as int } else { self.grid_width() as int },
                y0 as int,
                if y1 < self.grid_height() { y1 as int } else { self.grid_height() as int },
            ),
    {
        let x_end = if x1 < self.width { x1 } else { self.width };
        let y_end = if y1 < self.height { y1 } else { self.height };
        let mut out: Vec<(u32, u32, T)> = Vec::new();
        let mut y = y0;
        while y < y_end
            invariant
                self.wf(),
                y0 <= y,
                y <= y_end || y == y0,
                y_end <= self.grid_height(),
                x_end <= self.grid_width(),
                out@ == self.rect_tiles(x0 as int, x_end as int, y0 as int, y as int),
            decreases y_end - y,
        {
            let ghost before = out@;
            let mut x = x0;
            while x < x_end
                invariant
                    self.wf(),
                    x0 <= x,
                    x <= x_end || x == x0,
                    y < y_end,
                    y_end <= self.grid_height(),
                    x_end <= self.grid_width(),
                    out@ == before + self.row_tiles(y as int, x0 as int, x as int),
                decreases x_end - x,
            {
                let ghost row = self.row_tiles(y as int, x0 as int, x as int);
                match self.get(x, y) {
                    Some(t) => {
                        out.push((x, y, *t));
                        assert(out@ =~= before + row.push((x, y, *t)));
                    },
                    None => {},
                }
                x = x + 1;
            }
            proof {
                if x_end < x0 {
                    assert(self.row_tiles(y as int, x0 as int, x_end as int) =~= Seq::empty());
                }
            }
            y = y + 1;
        }
        out
    }

    /// Total capacity in tiles.
    pub fn capacity(&self) -> (r: usize)
        requires
            self.wf(),
        ensures
            r == self.grid_width() * self.grid_height(),
    {
        (self.width * self.height) as usize
    }
}

} // verus!
