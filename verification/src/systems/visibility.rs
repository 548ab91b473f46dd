//! Generic visibility mask for fog-of-war and region darkening.
//!
//! Games provide a byte grid (0=hidden, 255=fully visible) that maps 1:1 to the
//! game world. The renderer uses it as a fullscreen post-process to darken regions,
//! applied after world content but before UI.
use vstd::prelude::*;
use crate::grid_index::{cell_index, lemma_cell_in_bounds, lemma_cell_injective};

verus! {

/// Interpolation mode for the visibility mask texture.
#[derive(Debug, Clone, Copy, PartialEq, Eq, Default, Structural)]
pub enum VisibilityInterpolation {
    /// Sharp cell boundaries (blocky fog).
    #[default]
    Nearest,
    /// Smooth transitions between cells (feathered fog).
    Linear,
}

/// A 2D grid of visibility values.
///
/// Each cell is a u8: 0 = fully hidden (black), 255 = fully visible.
/// The grid maps to the full game world.
/// Row-major storage: index = y * cols + x.
#[derive(Debug, Clone)]
pub struct VisibilityMask {
    cols: u32,
    rows: u32,
    cells: Vec<u8>,
    pub interpolation: VisibilityInterpolation,
}

impl View for VisibilityMask {
    type V = Seq<u8>;

    /// The cells in row-major order.
    closed spec fn view(&self) -> Seq<u8> {
        self.cells@
    }
}

/// `after` is well formed with the same width and height as `before`.
pub open spec fn keeps_shape(before: VisibilityMask, after: VisibilityMask) -> bool {
    &&& after.wf()
    &&& after.width() == before.width()
    &&& after.height() == before.height()
}

/// A well-formed mask holds one byte per cell: width × height bytes.
pub proof fn lemma_byte_length(m: VisibilityMask)
    requires
        m.wf(),
    ensures
        m@.len() == m.width() * m.height(),
{
}

/// Shape law: along any sequence of masks in which each one comes from the
/// previous by a call that keeps the shape (`set`, `fill`, `clear`,
/// `reveal_all`, `set_rect` all do), the last mask has the first one's width
/// and height and width × height bytes.
pub proof fn lemma_shape_kept(ms: Seq<VisibilityMask>)
    requires
        ms.len() > 0,
        ms[0].wf(),
        forall|i: int| 0 <= i < ms.len() - 1 ==> keeps_shape(#[trigger] ms[i], ms[i + 1]),
    ensures
        ms.last().wf(),
        ms.last().width() == ms[0].width(),
        ms.last().height() == ms[0].height(),
        ms.last()@.len() == ms[0].width() * ms[0].height(),
    decreases ms.len(),
{
    if ms.len() > 1 {
        let d = ms.drop_last();
        assert forall|i: int| 0 <= i < d.len() - 1 implies keeps_shape(#[trigger] d[i], d[i + 1]) by {
            assert(d[i] == ms[i] && d[i + 1] == ms[i + 1]);
        }
        lemma_shape_kept(d);
        assert(keeps_shape(ms[ms.len() - 2], ms[ms.len() - 1]));
    }
    lemma_byte_length(ms.last());
}

impl VisibilityMask {
    /// Grid width in cells.
    pub closed spec fn width(&self) -> u32 {
        self.cols
    }

    /// Grid height in cells.
    pub closed spec fn height(&self) -> u32 {
        self.rows
    }

    /// The interpolation mode.
    pub closed spec fn interpolation_mode(&self) -> VisibilityInterpolation {
        self.interpolation
    }

    /// The storage holds exactly one byte per cell.
    pub closed spec fn wf(&self) -> bool {
        &&& self.cells@.len() == self.cols * self.rows
        &&& self.cols * self.rows <= u32::MAX
    }

    /// Value of cell `(x, y)` (meaningful inside the grid).
    pub open spec fn cell(&self, x: int, y: int) -> u8 {
        self@[cell_index(self.width() as int, x, y)]
    }

    /// Whether `(x, y)` lies inside the grid.
    pub open spec fn in_grid(&self, x: int, y: int) -> bool {
        0 <= x < self.width() && 0 <= y < self.height()
    }

    /// Create a new visibility mask, fully visible (all 255).
    pub fn new(cols: u32, rows: u32) -> (r: Self)
        requires
            cols * rows <= u32::MAX,
        ensures
            r.wf(),
            r.width() == cols,
            r.height() == rows,
            r@ == Seq::new((cols * rows) as nat, |i: int| 255u8),
            r.interpolation_mode() == VisibilityInterpolation::Nearest,
    {
        Self::with_interpolation(cols, rows, VisibilityInterpolation::Nearest)
    }

    /// Create a new visibility mask with the given interpolation mode.
    pub fn with_interpolation(cols: u32, rows: u32, interpolation: VisibilityInterpolation) -> (r: Self)
        requires
            cols * rows <= u32::MAX,
        ensures
            r.wf(),
            r.width() == cols,
            r.height() == rows,
            r@ == Seq::new((cols * rows) as nat, |i: int| 255u8),
            r.interpolation_mode() == interpolation,
    {
        let n = cols * rows;
        let cells = vec![255u8; n as usize];
        assert(cells@ =~= Seq::new((cols * rows) as nat, |i: int| 255u8));
        VisibilityMask { cols, rows, cells, interpolation }
    }

    /// Grid width in cells.
    pub fn cols(&self) -> (r: u32)
        ensures
            r == self.width(),
    {
        self.cols
    }

    /// Grid height in cells.
    pub fn rows(&self) -> (r: u32)
        ensures
            r == self.height(),
    {
        self.rows
    }

    /// Get the visibility value at (x, y). Returns 0 if out of bounds.
    pub fn get(&self, x: u32, y: u32) -> (r: u8)
        requires
            self.wf(),
        ensures
            r == if self.in_grid(x as int, y as int) {
                self.cell(x as int, y as int)
            } else {
                0u8
            },
    {
        if x >= self.cols || y >= self.rows {
            return 0;
        }
        proof {
            lemma_cell_in_bounds(self.cols as int, self.rows as int, x as int, y as int);
        }
        self.cells[(y * self.cols + x) as usize]
    }

    /// Set the visibility value at (x, y). No-op if out of bounds.
    pub fn set(&mut self, x: u32, y: u32, val: u8)
        requires
            old(self).wf(),
        ensures
            final(self).wf(),
            keeps_shape(*old(self), *final(self)),
            final(self).width() == old(self).width(),
            final(self).height() == old(self).height(),
            final(self).interpolation_mode() == old(self).interpolation_mode(),
            final(self)@ == if old(self).in_grid(x as int, y as int) {
                old(self)@.update(cell_index(old(self).width() as int, x as int, y as int), val)
            } else {
                old(self)@
            },
            forall|px: int, py: int|
                old(self).in_grid(px, py) ==> #[trigger] final(self).cell(px, py) == if px == x && py
                    == y {
                    val
                } else {
                    old(self).cell(px, py)
                },
    {
        if x < self.cols && y < self.rows {
            proof {
                lemma_cell_in_bounds(self.cols as int, self.rows as int, x as int, y as int);
            }
            self.cells.set((y * self.cols + x) as usize, val);
        }
        proof {
            let cols = self.cols as int;
            assert forall|px: int, py: int| old(self).in_grid(px, py) implies #[trigger] self.cell(
                px,
                py,
            ) == if px == x && py == y {
                val
            } else {
                old(self).cell(px, py)
            } by {
                lemma_cell_in_bounds(cols, self.rows as int, px, py);
                if old(self).in_grid(x as int, y as int) && (px != x || py != y) {
                    if cell_index(cols, px, py) == cell_index(cols, x as int, y as int) {
                        lemma_cell_injective(cols, px, py, x as int, y as int);
                    }
                }
            }
        }
    }

    /// Fill the entire mask with a single value.
    pub fn fill(&mut self, val: u8)
        requires
            old(self).wf(),
        ensures
            final(self).wf(),
            keeps_shape(*old(self), *final(self)),
            final(self).width() == old(self).width(),
            final(self).height() == old(self).height(),
            final(self).interpolation_mode() == old(self).interpolation_mode(),
            final(self)@ == Seq::new(old(self)@.len(), |i: int| val),
    {
        let n = self.cells.len();
        let mut i: usize = 0;
        while i < n
            invariant
                self.cols == old(self).cols,
                self.rows == old(self).rows,
                self.interpolation == old(self).interpolation,
                n == old(self).cells@.len(),
                self.cells@.len() == n,
                i <= n,
                forall|j: int| 0 <= j < i ==> self.cells@[j] == val,
            decreases n - i,
        {
            self.cells.set(i, val);
            i = i + 1;
        }
        assert(self.cells@ =~= Seq::new(old(self)@.len(), |i: int| val));
    }

    /// Set all cells to 0 (fully hidden).
    pub fn clear(&mut self)
        requires
            old(self).wf(),
        ensures
            final(self).wf(),
            keeps_shape(*old(self), *final(self)),
            final(self).width() == old(self).width(),
            final(self).height() == old(self).height(),
            final(self).interpolation_mode() == old(self).interpolation_mode(),
            final(self)@ == Seq::new(old(self)@.len(), |i: int| 0u8),
    {
        self.fill(0);
    }

    /// Set all cells to 255 (fully visible).
    pub fn reveal_all(&mut self)
        requires
            old(self).wf(),
        ensures
            final(self).wf(),
            keeps_shape(*old(self), *final(self)),
            final(self).width() == old(self).width(),
            final(self).height() == old(self).height(),
            final(self).interpolation_mode() == old(self).interpolation_mode(),
            final(self)@ == Seq::new(old(self)@.len(), |i: int| 255u8),
    {
        self.fill(255);
    }

    /// Fill a rectangular region with a value: the cells with
    /// `x <= cx < x + w` and `y <= cy < y + h` that lie inside the grid.
    pub fn set_rect(&mut self, x: u32, y: u32, w: u32, h: u32, val: u8)
        requires
            old(self).wf(),
            x + w <= u32::MAX,
            y + h <= u32::MAX,
        ensures
            final(self).wf(),
            keeps_shape(*old(self), *final(self)),
            final(self).width() == old(self).width(),
            final(self).height() == old(self).height(),
            final(self).interpolation_mode() == old(self).interpolation_mode(),
            final(self)@.len() == old(self)@.len(),
            forall|px: int, py: int|
                old(self).in_grid(px, py) ==> #[trigger] final(self).cell(px, py) == if x <= px < x
                    + w && y <= py < y + h {
                    val
                } else {
                    old(self).cell(px, py)
                },
    {
        let x_end = if x + w < self.cols { x + w } else { self.cols };
        let y_end = if y + h < self.rows { y + h } else { self.rows };
        let cols = self.cols;
        let rows = self.rows;
        let mut cy = y;
        while cy < y_end
            invariant
                self.wf(),
                self.cols == cols,
                self.rows == rows,
                cols == old(self).cols,
                rows == old(self).rows,
                self.interpolation == old(self).interpolation,
                self.cells@.len() == old(self).cells@.len(),
                x_end <= cols,
                y_end <= rows,
                x_end == if x + w < cols { x + w } else { cols as int },
                y_end == if y + h < rows { y + h } else { rows as int },
                y <= cy,
                cy <= y_end || cy == y,
                forall|px: int, py: int|
                    0 <= px < cols && 0 <= py < rows ==> #[trigger] self.cells@[cell_index(
                        cols as int,
                        px,
                        py,
                    )] == if x <= px < x_end && y <= py < cy {
                        val
                    } else {
                        old(self).cells@[cell_index(cols as int, px, py)]
                    },
            decreases y_end - cy,
        {
            let mut cx = x;
            while cx < x_end
                invariant
                    self.wf(),
                    self.cols == cols,
                    self.rows == rows,
                    self.interpolation == old(self).interpolation,
                    self.cells@.len() == old(self).cells@.len(),
                    x_end <= cols,
                    y <= cy < y_end,
                    y_end <= rows,
                    x <= cx,
                    cx <= x_end || cx == x,
                    forall|px: int, py: int|
                        0 <= px < cols && 0 <= py < rows ==> #[trigger] self.cells@[cell_index(
                            cols as int,
                            px,
                            py,
                        )] == if (x <= px < x_end && y <= py < cy) || (py == cy && x <= px
                            < cx) {
                            val
                        } else {
                            old(self).cells@[cell_index(cols as int, px, py)]
                        },
                decreases x_end - cx,
            {
                proof {
                    lemma_cell_in_bounds(cols as int, rows as int, cx as int, cy as int);
                }
                let idx = (cy * cols + cx) as usize;
                let ghost before = self.cells@;
                self.cells.set(idx, val);
                proof {
                    assert forall|px: int, py: int|
                        0 <= px < cols && 0 <= py < rows implies #[trigger] self.cells@[cell_index(
                            cols as int,
                            px,
                            py,
                        )] == if (x <= px < x_end && y <= py < cy) || (py == cy && x <= px
                            < cx + 1) {
                            val
                        } else {
                            old(self).cells@[cell_index(cols as int, px, py)]
                        } by {
                        lemma_cell_in_bounds(cols as int, rows as int, px, py);
                        if cell_index(cols as int, px, py) == idx as int {
                            lemma_cell_injective(cols as int, px, py, cx as int, cy as int);
                        } else {
                            assert(self.cells@[cell_index(cols as int, px, py)] == before[cell_index(
                                cols as int,
                                px,
                                py,
                            )]);
                        }
                    }
                }
                cx = cx + 1;
            }
            cy = cy + 1;
        }
        assert forall|px: int, py: int| old(self).in_grid(px, py) implies #[trigger] self.cell(px, py)
            == if x <= px < x + w && y <= py < y + h {
            val
        } else {
            old(self).cell(px, py)
        } by {
            assert(self.cells@[cell_index(cols as int, px, py)] == if x <= px < x_end && y <= py
                < y_end {
                val
            } else {
                old(self).cells@[cell_index(cols as int, px, py)]
            });
        }
    }

    /// Direct byte access for shared-buffer transport.
    pub fn as_bytes(&self) -> (r: &[u8])
        ensures
            r@ == self@,
    {
        self.cells.as_slice()
    }

    /// Total number of bytes in the mask.
    pub fn byte_count(&self) -> (r: usize)
        ensures
            r == self@.len(),
            self.wf() ==> r == self.width() * self.height(),
    {
        self.cells.len()
    }
}

} // verus!
