use vstd::prelude::*;
use crate::block::Block;

verus! {

/// An immutable rectangular table of optional blocks, stored row by row.
pub struct Grid {
    width: usize,
    height: usize,
    cells: Vec<Option<Block>>,
}

impl Grid {
    pub closed spec fn width_spec(&self) -> nat {
        self.width as nat
    }

    pub closed spec fn height_spec(&self) -> nat {
        self.height as nat
    }

    /// The cells in row-major order.
    pub closed spec fn cells_spec(&self) -> Seq<Option<Block>> {
        self.cells@
    }

    /// The grid holds exactly `width * height` cells.
    pub open spec fn wf(&self) -> bool {
        self.cells_spec().len() == self.width_spec() * self.height_spec()
    }

    /// The cell at linear index `i`; `None` when empty or off the grid.
    pub open spec fn cell(&self, i: int) -> Option<Block> {
        if 0 <= i < self.cells_spec().len() {
            self.cells_spec()[i]
        } else {
            None
        }
    }

    /// Builds a grid from its dimensions and its cells in row-major order, or
    /// `None` when the number of cells is not `width * height`.
    pub fn new(width: usize, height: usize, cells: Vec<Option<Block>>) -> (r: Option<Grid>)
        ensures
            r is Some <==> cells@.len() == width * height,
            r matches Some(g) ==> g.wf() && g.width_spec() == width && g.height_spec()
                == height && g.cells_spec() == cells@,
    {
        let n = width.checked_mul(height);
        match n {
            Some(n) => {
                if n == cells.len() {
                    Some(Grid { width, height, cells })
                } else {
                    None
                }
            },
            None => {
                let len = cells.len();
                assert(len as int != width * height);
                None
            },
        }
    }

    pub fn width(&self) -> (r: usize)
        ensures
            r == self.width_spec(),
    {
        self.width
    }

    pub fn height(&self) -> (r: usize)
        ensures
            r == self.height_spec(),
    {
        self.height
    }

    pub fn len(&self) -> (r: usize)
        ensures
            r == self.cells_spec().len(),
    {
        self.cells.len()
    }

    /// The cell at linear index `i`: `None` when it is empty or off the grid.
    pub fn get(&self, i: usize) -> (r: Option<Block>)
        ensures
            r == self.cell(i as int),
    {
        if i < self.cells.len() {
            self.cells[i]
        } else {
            None
        }
    }

    /// The cell at column `x` of row `y`: `None` when empty or off the grid.
    pub fn get_at(&self, x: usize, y: usize) -> (r: Option<Block>)
        requires
            self.wf(),
        ensures
            x < self.width_spec() && y < self.height_spec() ==> r == self.cell(
                y * self.width_spec() + x,
            ),
            !(x < self.width_spec() && y < self.height_spec()) ==> r is None,
    {
        if x < self.width && y < self.height {
            let len = self.cells.len();
            proof {
                lemma_index_in_grid(x as nat, y as nat, self.width as nat, self.height as nat);
                assert(y * self.width + x < len);
            }
            self.cells[y * self.width + x]
        } else {
            None
        }
    }
}

/// A grid whose number of cells is fixed by its type, for programs written
/// into the source. It answers lookups as `Grid` does, and runs as the `Grid`
/// of the same cells.
pub struct ConstGrid<const N: usize> {
    pub cells: [Option<Block>; N],
    pub width: usize,
    pub height: usize,
}

impl<const N: usize> ConstGrid<N> {
    /// The grid holds exactly `width * height` cells.
    pub open spec fn wf(&self) -> bool {
        self.cells@.len() == self.width * self.height
    }

    /// The cell at linear index `i`: `None` when it is empty or off the grid.
    pub fn get(&self, i: usize) -> (r: Option<Block>)
        ensures
            r == (if i < N {
                self.cells@[i as int]
            } else {
                None
            }),
    {
        if i < N {
            self.cells[i]
        } else {
            None
        }
    }

    /// The dynamically sized grid of the same dimensions and cells.
    pub fn to_grid(&self) -> (g: Grid)
        requires
            self.wf(),
        ensures
            g.wf(),
            g.width_spec() == self.width,
            g.height_spec() == self.height,
            g.cells_spec() == self.cells@,
    {
        let mut cells: Vec<Option<Block>> = Vec::new();
        let mut i: usize = 0;
        while i < N
            invariant
                i <= N,
                self.cells@.len() == N,
                cells@ == self.cells@.subrange(0, i as int),
            decreases N - i,
        {
            cells.push(self.cells[i]);
            i = i + 1;
        }
        assert(cells@ =~= self.cells@);
        Grid { width: self.width, height: self.height, cells }
    }
}

/// A coordinate on a `w` by `h` grid has a row-major index below `w * h`.
pub proof fn lemma_index_in_grid(x: nat, y: nat, w: nat, h: nat)
    requires
        x < w,
        y < h,
    ensures
        y * w + x < w * h,
{
    assert(y * w + x < w * h) by (nonlinear_arith)
        requires
            x < w,
            y < h,
    ;
}

} // verus!
