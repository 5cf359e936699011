use vstd::prelude::*;
use crate::block::Value;
use crate::grid::Grid;
use crate::machine::{column, row, initial, live_on_grid, next, emitted, ExecState, Machine, Output, STORAGE_SIZE};
use crate::format::{grid_text, parsable};
use crate::program::{grid_from_code, PARSE_ERROR};
use crate::run::{in_breakpoints, run_result, run_until_stop};

verus! {

/// Construction error: the breakpoint list has an odd number of endpoints.
pub const ODD_BREAKPOINTS: u8 = 5;

/// Pairs up a flat list of endpoints: `[a, b, c, d]` becomes `[(a, b), (c, d)]`.
pub open spec fn pairs_of(points: Seq<usize>) -> Seq<(usize, usize)> {
    Seq::new(points.len() / 2, |k: int| (points[2 * k], points[2 * k + 1]))
}

/// A program under inspection: one grid, one execution state, the breakpoint
/// ranges, and the output that steps have emitted and nobody has taken yet.
pub struct M43Debugger {
    grid: Grid,
    state: ExecState,
    breaks: Vec<(usize, usize)>,
    output: Vec<Output>,
}

impl M43Debugger {
    pub closed spec fn grid_spec(&self) -> Grid {
        self.grid
    }

    /// The model of the execution state.
    pub closed spec fn machine(&self) -> Machine {
        self.state@
    }

    /// The breakpoint ranges, each inclusive at both ends.
    pub closed spec fn breaks_spec(&self) -> Seq<(usize, usize)> {
        self.breaks@
    }

    /// Output emitted and not yet taken.
    pub closed spec fn pending(&self) -> Seq<Output> {
        self.output@
    }

    pub closed spec fn wf(&self) -> bool {
        self.grid.wf() && self.state.inv(&self.grid)
    }

    /// A debugger at the start of the program whose text is `code` (see
    /// `from_grid`); fails with `PARSE_ERROR` when `code` is the text of no
    /// grid.
    pub fn new(code: String, break_points: Vec<usize>) -> (r: Result<M43Debugger, u8>)
        ensures
            (forall|g: Grid| g.wf() ==> #[trigger] grid_text(&g) != code@) <==> r == Err::<
                M43Debugger,
                u8,
            >(PARSE_ERROR),
            (exists|g: Grid| g.wf() && #[trigger] grid_text(&g) == code@) ==> (r == Err::<
                M43Debugger,
                u8,
            >(ODD_BREAKPOINTS) <==> break_points@.len() % 2 == 1),
            r is Ok <==> (exists|g: Grid| g.wf() && #[trigger] grid_text(&g) == code@)
                && break_points@.len() % 2 == 0,
            r matches Ok(d) ==> {
                &&& d.wf()
                &&& grid_text(&d.grid_spec()) == code@
                &&& parsable(&d.grid_spec())
                &&& d.machine() == initial(&d.grid_spec())
                &&& live_on_grid(&d.grid_spec(), d.machine())
                &&& d.breaks_spec() == pairs_of(break_points@)
                &&& d.pending() == Seq::<Output>::empty()
            },
    {
        match grid_from_code(code.as_str()) {
            None => Err(PARSE_ERROR),
            Some(g) => {
                let ghost g0 = g;
                let r = M43Debugger::from_grid(g, break_points);
                proof {
                    assert(g0.wf() && grid_text(&g0) == code@);
                    assert(!(forall|g: Grid| g.wf() ==> #[trigger] grid_text(&g) != code@));
                }
                r
            },
        }
    }

    /// A debugger at the start of `grid`, with breakpoint ranges
    /// `(points[0], points[1]), (points[2], points[3]), ...`; fails with
    /// `ODD_BREAKPOINTS` when `points` has odd length.
    pub fn from_grid(grid: Grid, points: Vec<usize>) -> (r: Result<M43Debugger, u8>)
        requires
            grid.wf(),
        ensures
            points@.len() % 2 == 1 <==> r == Err::<M43Debugger, u8>(ODD_BREAKPOINTS),
            r is Ok <==> points@.len() % 2 == 0,
            r matches Ok(d) ==> {
                &&& d.wf()
                &&& d.grid_spec() == grid
                &&& d.machine() == initial(&grid)
                &&& d.breaks_spec() == pairs_of(points@)
                &&& d.pending() == Seq::<Output>::empty()
            },
    {
        if points.len() % 2 != 0 {
            return Err(ODD_BREAKPOINTS);
        }
        let mut breaks: Vec<(usize, usize)> = Vec::new();
        let mut k: usize = 0;
        while k + 1 < points.len()
            invariant
                points@.len() % 2 == 0,
                k % 2 == 0,
                k <= points@.len(),
                breaks@.len() == k / 2,
                forall|i: int| 0 <= i < k / 2 ==> breaks@[i] == pairs_of(points@)[i],
            decreases points@.len() - k,
        {
            breaks.push((points[k], points[k + 1]));
            k = k + 2;
        }
        assert(breaks@ == pairs_of(points@));
        let state = ExecState::new(&grid);
        Ok(M43Debugger { grid, state, breaks, output: Vec::new() })
    }

    /// Executes one step. Returns the failure code when the machine is failed
    /// after it; a halted machine stays halted and returns success.
    pub fn step(&mut self) -> (r: Result<(), u8>)
        requires
            old(self).wf(),
        ensures
            final(self).wf(),
            final(self).grid_spec() == old(self).grid_spec(),
            final(self).breaks_spec() == old(self).breaks_spec(),
            final(self).machine() == next(&old(self).grid_spec(), old(self).machine()),
            live_on_grid(&final(self).grid_spec(), final(self).machine()),
            final(self).pending() == match emitted(&old(self).grid_spec(), old(self).machine()) {
                Some(o) => old(self).pending().push(o),
                None => old(self).pending(),
            },
            r == match final(self).machine().status {
                crate::machine::Status::Failed(c) => Err(c),
                _ => Ok(()),
            },
    {
        let o = self.state.step(&self.grid);
        if let Some(o) = o {
            self.output.push(o);
        }
        match self.state.status {
            crate::machine::Status::Failed(c) => Err(c),
            _ => Ok(()),
        }
    }

    /// Steps until the machine halts (success), fails (its code), or its
    /// cursor lies in a breakpoint range after a step (`PAUSED`). Calling it
    /// again after a pause resumes from where it stopped.
    pub fn run(&mut self) -> (r: Result<(), u8>)
        requires
            old(self).wf(),
        ensures
            final(self).wf(),
            final(self).grid_spec() == old(self).grid_spec(),
            final(self).breaks_spec() == old(self).breaks_spec(),
            live_on_grid(&final(self).grid_spec(), final(self).machine()),
            exists|n: nat|
                #[trigger] run_result(
                    &old(self).grid_spec(),
                    old(self).breaks_spec(),
                    old(self).machine(),
                    n,
                    final(self).machine(),
                    old(self).pending(),
                    final(self).pending(),
                    r,
                ),
    {
        let ghost m0 = self.state@;
        let ghost out0 = self.output@;
        let r = run_until_stop(&self.grid, &mut self.state, &self.breaks, &mut self.output);
        proof {
            let n = choose|n: nat|
                #[trigger] run_result(&self.grid, self.breaks@, m0, n, self.state@, out0, self.output@, r);
            assert(run_result(&self.grid, self.breaks@, m0, n, self.state@, out0, self.output@, r));
            assert(run_result(&old(self).grid_spec(), old(self).breaks_spec(), old(self).machine(), n, self.machine(), old(self).pending(), self.pending(), r));
        }
        r
    }

    /// Hands out the output emitted so far, oldest first, and forgets it.
    pub fn take_output(&mut self) -> (r: Vec<Output>)
        requires
            old(self).wf(),
        ensures
            final(self).wf(),
            r@ == old(self).pending(),
            final(self).pending() == Seq::<Output>::empty(),
            final(self).grid_spec() == old(self).grid_spec(),
            final(self).breaks_spec() == old(self).breaks_spec(),
            final(self).machine() == old(self).machine(),
    {
        let mut r: Vec<Output> = Vec::new();
        std::mem::swap(&mut r, &mut self.output);
        r
    }

    /// Whether the machine runs, halted or failed.
    pub fn status(&self) -> (r: crate::machine::Status)
        ensures
            r == self.machine().status,
    {
        self.state.status
    }

    /// Whether the cursor lies in a breakpoint range.
    pub fn at_breakpoint(&self) -> (r: bool)
        ensures
            r == crate::run::in_breakpoint(self.breaks_spec(), self.machine().pos),
    {
        in_breakpoints(&self.breaks, self.state.pos)
    }

    /// A read-only snapshot of the execution state.
    pub fn get_state(&self) -> (r: M43State)
        requires
            self.wf(),
        ensures
            r.dir_spec() == self.machine().dir.symbol_spec(),
            r.pos_spec() == self.machine().pos,
            r.val_spec() == self.machine().val,
            r.storage_spec() == self.machine().storage,
            r.coords_spec() == self.state_coords(),
            r.storage_spec().len() == STORAGE_SIZE,
            !(self.machine().status is Failed) ==> r.pos_spec() < self.grid_spec().cells_spec().len(),
            self.machine().pos < self.grid_spec().cells_spec().len() ==> {
                &&& r.coords_spec().0 == column(&self.grid_spec(), self.machine().pos)
                &&& r.coords_spec().1 == row(&self.grid_spec(), self.machine().pos)
            },
    {
        let mut storage: Vec<Value> = Vec::new();
        let mut k: usize = 0;
        while k < self.state.storage.len()
            invariant
                k <= self.state.storage@.len(),
                storage@ == self.state.storage@.subrange(0, k as int),
            decreases self.state.storage@.len() - k,
        {
            storage.push(self.state.storage[k]);
            k = k + 1;
        }
        assert(storage@ == self.state.storage@);
        M43State {
            dir: self.state.dir.symbol(),
            pos: self.state.pos,
            val: self.state.val,
            coords: self.state.coords,
            storage,
        }
    }

    /// `(column, row)` of the cursor.
    pub closed spec fn state_coords(&self) -> (usize, usize) {
        self.state.coords
    }
}

/// A snapshot of an execution state, for display.
pub struct M43State {
    /// `'U'`, `'D'`, `'L'` or `'R'`.
    pub dir: char,
    pub pos: usize,
    pub val: Value,
    /// `(column, row)` of `pos`.
    pub coords: (usize, usize),
    /// The storage cells, bottom of the stack first.
    pub storage: Vec<Value>,
}

impl M43State {
    pub open spec fn dir_spec(&self) -> char {
        self.dir
    }

    pub open spec fn pos_spec(&self) -> usize {
        self.pos
    }

    pub open spec fn val_spec(&self) -> Value {
        self.val
    }

    pub open spec fn coords_spec(&self) -> (usize, usize) {
        self.coords
    }

    pub open spec fn storage_spec(&self) -> Seq<Value> {
        self.storage@
    }

    /// The storage cells, bottom of the stack first.
    pub fn get_storage(&self) -> (r: &Vec<Value>)
        ensures
            r@ == self.storage_spec(),
    {
        &self.storage
    }

    pub fn get_coords_x(&self) -> (r: usize)
        ensures
            r == self.coords_spec().0,
    {
        self.coords.0
    }

    pub fn get_coords_y(&self) -> (r: usize)
        ensures
            r == self.coords_spec().1,
    {
        self.coords.1
    }

    pub fn get_storage_size(&self) -> (r: usize)
        ensures
            r == STORAGE_SIZE,
    {
        STORAGE_SIZE
    }
}

} // verus!
