use vstd::prelude::*;
use vstd::arithmetic::div_mod::lemma_fundamental_div_mod_converse;
use crate::block::{Block, Direction, Value};
use crate::grid::{Grid, lemma_index_in_grid};

verus! {

/// Number of cells of the storage stack.
pub const STORAGE_SIZE: usize = 16;

/// Failure code: the cursor tried to leave the grid.
pub const OUT_OF_BOUNDS: u8 = 1;

/// Failure code: `Store` on a full storage stack, or `OpAdd` with fewer than
/// two values stored.
pub const STORAGE_FAULT: u8 = 2;

/// Failure code: the grid has no `Start` cell. A machine built on such a grid
/// is failed from the outset, so its first step reports this code.
pub const MISSING_START: u8 = 3;

/// Where an execution stands.
#[derive(Clone, Copy, Debug, PartialEq, Eq, Structural)]
pub enum Status {
    Running,
    Halted,
    Failed(u8),
}

/// What a step hands to the host's output.
#[derive(Clone, Copy, Debug, PartialEq, Eq, Structural)]
pub enum Output {
    /// From `Print`: the value, to be written as a number.
    Number(Value),
    /// From `Display`: the value, to be written as a character.
    Character(Value),
}

/// The mathematical model of an execution state.
///
/// Storage is a stack: `storage[0..top]` holds the values stored and not yet
/// consumed, the most recent at `top - 1`. Cells at or above `top` keep
/// whatever they last held.
pub struct Machine {
    pub dir: Direction,
    pub pos: nat,
    pub val: Value,
    pub storage: Seq<Value>,
    pub top: nat,
    pub status: Status,
}

/// The column of linear position `pos`.
pub open spec fn column(g: &Grid, pos: nat) -> nat {
    (pos as int % g.width_spec() as int) as nat
}

/// The row of linear position `pos`.
pub open spec fn row(g: &Grid, pos: nat) -> nat {
    (pos as int / g.width_spec() as int) as nat
}

/// The position one cell away from `pos` in direction `d`, or `None` when that
/// leaves the grid.
pub open spec fn neighbour(g: &Grid, pos: nat, d: Direction) -> Option<nat> {
    let w = g.width_spec();
    match d {
        Direction::Up => if row(g, pos) == 0 {
            None
        } else {
            Some((pos - w) as nat)
        },
        Direction::Down => if row(g, pos) + 1 < g.height_spec() {
            Some(pos + w)
        } else {
            None
        },
        Direction::Left => if column(g, pos) == 0 {
            None
        } else {
            Some((pos - 1) as nat)
        },
        Direction::Right => if column(g, pos) + 1 < w {
            Some(pos + 1)
        } else {
            None
        },
    }
}

/// Byte addition, wrapping around at 256.
pub open spec fn byte_sum(a: Value, b: Value) -> Value {
    ((a + b) % 256) as u8
}

/// The effect of the block `b` on the machine, before the cursor moves.
pub open spec fn execute(m: Machine, b: Option<Block>) -> Machine {
    match b {
        Some(Block::Start(d)) => Machine { dir: d, ..m },
        Some(Block::Redirect(d)) => Machine { dir: d, ..m },
        Some(Block::End) => Machine { status: Status::Halted, ..m },
        Some(Block::SetVal(v)) => Machine { val: v, ..m },
        Some(Block::Store) => if m.top < STORAGE_SIZE {
            Machine { storage: m.storage.update(m.top as int, m.val), top: m.top + 1, ..m }
        } else {
            Machine { status: Status::Failed(STORAGE_FAULT), ..m }
        },
        Some(Block::OpAdd) => if m.top >= 2 {
            Machine {
                val: byte_sum(m.storage[m.top - 1], m.storage[m.top - 2]),
                top: (m.top - 2) as nat,
                ..m
            }
        } else {
            Machine { status: Status::Failed(STORAGE_FAULT), ..m }
        },
        _ => m,
    }
}

/// Moves the cursor one cell in its direction: the machine halts when it lands
/// on `End`, and fails when the move would leave the grid.
pub open spec fn advance(g: &Grid, m: Machine) -> Machine {
    match neighbour(g, m.pos, m.dir) {
        None => Machine { status: Status::Failed(OUT_OF_BOUNDS), ..m },
        Some(p) => Machine {
            pos: p,
            status: if g.cell(p as int) == Some(Block::End) {
                Status::Halted
            } else {
                Status::Running
            },
            ..m
        },
    }
}

/// One step: the block under the cursor acts, then the cursor moves in the
/// direction that results. A machine that is not running stays as it is.
pub open spec fn next(g: &Grid, m: Machine) -> Machine {
    if m.status is Running {
        let e = execute(m, g.cell(m.pos as int));
        if e.status is Running {
            advance(g, e)
        } else {
            e
        }
    } else {
        m
    }
}

/// What one step from `m` hands to the host's output.
pub open spec fn emitted(g: &Grid, m: Machine) -> Option<Output> {
    if m.status is Running {
        match g.cell(m.pos as int) {
            Some(Block::Print) => Some(Output::Number(m.val)),
            Some(Block::Display) => Some(Output::Character(m.val)),
            _ => None,
        }
    } else {
        None
    }
}

/// The machine after `n` steps from `m`.
pub open spec fn run_steps(g: &Grid, m: Machine, n: nat) -> Machine
    decreases n,
{
    if n == 0 {
        m
    } else {
        next(g, run_steps(g, m, (n - 1) as nat))
    }
}

/// Everything handed to the host's output during `n` steps from `m`, in order.
pub open spec fn outputs(g: &Grid, m: Machine, n: nat) -> Seq<Output>
    decreases n,
{
    if n == 0 {
        Seq::empty()
    } else {
        let prev = outputs(g, m, (n - 1) as nat);
        match emitted(g, run_steps(g, m, (n - 1) as nat)) {
            Some(o) => prev.push(o),
            None => prev,
        }
    }
}

/// The cursor of a running or halted machine is on the grid.
pub open spec fn live_on_grid(g: &Grid, m: Machine) -> bool {
    (m.status is Running || m.status is Halted) ==> m.pos < g.cells_spec().len()
}

pub open spec fn is_start(b: Option<Block>) -> bool {
    b matches Some(Block::Start(_))
}

/// The first position at or after `i`, in row-major order, that holds `Start`.
pub open spec fn find_start(g: &Grid, i: nat) -> Option<nat>
    decreases g.cells_spec().len() - i,
{
    if i >= g.cells_spec().len() {
        None
    } else if is_start(g.cell(i as int)) {
        Some(i)
    } else {
        find_start(g, i + 1)
    }
}

pub open spec fn empty_storage() -> Seq<Value> {
    Seq::new(STORAGE_SIZE as nat, |k: int| 0u8)
}

/// The machine at the start of a run: on the first `Start` cell, heading its
/// way, with zero in the accumulator and an empty stack; failed with
/// `MISSING_START` when the grid has no `Start`.
pub open spec fn initial(g: &Grid) -> Machine {
    match find_start(g, 0) {
        Some(i) => Machine {
            dir: match g.cell(i as int) {
                Some(Block::Start(d)) => d,
                _ => Direction::Right,
            },
            pos: i,
            val: 0,
            storage: empty_storage(),
            top: 0,
            status: Status::Running,
        },
        None => Machine {
            dir: Direction::Right,
            pos: 0,
            val: 0,
            storage: empty_storage(),
            top: 0,
            status: Status::Failed(MISSING_START),
        },
    }
}

/// The mutable record of one execution.
pub struct ExecState {
    pub dir: Direction,
    pub pos: usize,
    pub val: Value,
    /// `(column, row)` of `pos`.
    pub coords: (usize, usize),
    pub storage: Vec<Value>,
    pub top: usize,
    pub status: Status,
}

impl View for ExecState {
    type V = Machine;

    open spec fn view(&self) -> Machine {
        Machine {
            dir: self.dir,
            pos: self.pos as nat,
            val: self.val,
            storage: self.storage@,
            top: self.top as nat,
            status: self.status,
        }
    }
}

/// Division facts for a position written as `y * w + x` with `x < w`.
proof fn lemma_coords(pos: nat, x: nat, y: nat, w: nat)
    requires
        w > 0,
        x < w,
        pos == y * w + x,
    ensures
        x == pos as int % w as int,
        y == pos as int / w as int,
{
    lemma_fundamental_div_mod_converse(pos as int, w as int, y as int, x as int);
}

/// A position inside a `w` by `h` grid lies on a row below `h`.
proof fn lemma_row_below(x: nat, y: nat, w: nat, h: nat)
    requires
        y * w + x < w * h,
    ensures
        y < h,
{
    assert(y < h) by (nonlinear_arith)
        requires
            y * w + x < w * h,
    ;
}

impl ExecState {
    /// The state is consistent with grid `g`: a full-size storage, a stack
    /// count within it, a cursor on the grid whenever the machine is running
    /// or halted, and `coords` matching `pos`.
    pub open spec fn inv(&self, g: &Grid) -> bool {
        &&& self.storage@.len() == STORAGE_SIZE
        &&& self.top <= STORAGE_SIZE
        &&& (self.status is Running || self.status is Halted) ==> self.pos
            < g.cells_spec().len()
        &&& self.pos < g.cells_spec().len() ==> {
            &&& g.width_spec() > 0
            &&& self.coords.0 < g.width_spec()
            &&& self.pos == self.coords.1 * g.width_spec() + self.coords.0
            &&& self.coords.0 == column(g, self.pos as nat)
            &&& self.coords.1 == row(g, self.pos as nat)
        }
        &&& self.pos >= g.cells_spec().len() ==> self.pos == 0 && self.coords == (0usize, 0usize)
    }

    /// The state at the start of a run of `g`.
    pub fn new(g: &Grid) -> (s: ExecState)
        requires
            g.wf(),
        ensures
            s.inv(g),
            s@ == initial(g),
    {
        let mut storage: Vec<Value> = Vec::new();
        while storage.len() < STORAGE_SIZE
            invariant
                storage@.len() <= STORAGE_SIZE,
                forall|k: int| 0 <= k < storage@.len() ==> storage@[k] == 0u8,
            decreases STORAGE_SIZE - storage@.len(),
        {
            storage.push(0u8);
        }
        assert(storage@ == empty_storage());
        let len = g.len();
        let w = g.width();
        proof {
            let h = g.height_spec();
            assert(len > 0 ==> w > 0) by (nonlinear_arith)
                requires
                    len == w * h,
            ;
        }
        let mut i: usize = 0;
        let mut x: usize = 0;
        let mut y: usize = 0;
        while i < len
            invariant
                g.wf(),
                len == g.cells_spec().len(),
                w == g.width_spec(),
                i <= len,
                find_start(g, i as nat) == find_start(g, 0),
                i < len ==> w > 0 && x < w && i == y * w + x,
                y <= i,
                storage@ == empty_storage(),
            decreases len - i,
        {
            if let Some(Block::Start(d)) = g.get(i) {
                proof {
                    lemma_coords(i as nat, x as nat, y as nat, w as nat);
                }
                return ExecState {
                    dir: d,
                    pos: i,
                    val: 0,
                    coords: (x, y),
                    storage,
                    top: 0,
                    status: Status::Running,
                };
            }
            i = i + 1;
            if x + 1 == w {
                proof {
                    assert((y + 1) * w == y * w + w) by (nonlinear_arith);
                }
                x = 0;
                y = y + 1;
            } else {
                x = x + 1;
            }
        }
        ExecState {
            dir: Direction::Right,
            pos: 0,
            val: 0,
            coords: (0, 0),
            storage,
            top: 0,
            status: Status::Failed(MISSING_START),
        }
    }
    /// Moves the cursor one cell in its direction (see `advance`).
    fn advance(&mut self, g: &Grid)
        requires
            g.wf(),
            old(self).inv(g),
            old(self).status is Running,
        ensures
            final(self).inv(g),
            final(self)@ == advance(g, old(self)@),
    {
        let w = g.width();
        let h = g.height();
        let len = g.len();
        let x = self.coords.0;
        let y = self.coords.1;
        proof {
            lemma_row_below(x as nat, y as nat, w as nat, h as nat);
        }
        let target: Option<(usize, usize, usize)> = match self.dir {
            Direction::Up => if y == 0 {
                None
            } else {
                proof {
                    assert((y - 1) * w == y * w - w) by (nonlinear_arith);
                }
                Some((self.pos - w, x, y - 1))
            },
            Direction::Down => if y + 1 < h {
                proof {
                    assert((y + 1) * w == y * w + w) by (nonlinear_arith);
                    lemma_index_in_grid(x as nat, (y + 1) as nat, w as nat, h as nat);
                }
                Some((self.pos + w, x, y + 1))
            } else {
                None
            },
            Direction::Left => if x == 0 {
                None
            } else {
                Some((self.pos - 1, x - 1, y))
            },
            Direction::Right => if x + 1 < w {
                proof {
                    lemma_index_in_grid((x + 1) as nat, y as nat, w as nat, h as nat);
                }
                Some((self.pos + 1, x + 1, y))
            } else {
                None
            },
        };
        match target {
            None => {
                self.status = Status::Failed(OUT_OF_BOUNDS);
            },
            Some((p, nx, ny)) => {
                proof {
                    lemma_index_in_grid(nx as nat, ny as nat, w as nat, h as nat);
                    lemma_coords(p as nat, nx as nat, ny as nat, w as nat);
                }
                self.pos = p;
                self.coords = (nx, ny);
                if let Some(Block::End) = g.get(p) {
                    self.status = Status::Halted;
                } else {
                    self.status = Status::Running;
                }
            },
        }
    }

    /// Executes one step on grid `g` (see `next`) and returns what it hands to
    /// the host's output.
    pub fn step(&mut self, g: &Grid) -> (out: Option<Output>)
        requires
            g.wf(),
            old(self).inv(g),
        ensures
            final(self).inv(g),
            final(self)@ == next(g, old(self)@),
            out == emitted(g, old(self)@),
    {
        if !matches!(self.status, Status::Running) {
            return None;
        }
        let mut out: Option<Output> = None;
        match g.get(self.pos) {
            Some(Block::Start(d)) => {
                self.dir = d;
            },
            Some(Block::Redirect(d)) => {
                self.dir = d;
            },
            Some(Block::End) => {
                self.status = Status::Halted;
                return None;
            },
            Some(Block::SetVal(v)) => {
                self.val = v;
            },
            Some(Block::Store) => {
                if self.top < STORAGE_SIZE {
                    self.storage.set(self.top, self.val);
                    self.top = self.top + 1;
                } else {
                    self.status = Status::Failed(STORAGE_FAULT);
                    return None;
                }
            },
            Some(Block::OpAdd) => {
                if self.top >= 2 {
                    let a = self.storage[self.top - 1];
                    let b = self.storage[self.top - 2];
                    self.val = ((a as u16 + b as u16) % 256) as u8;
                    self.top = self.top - 2;
                } else {
                    self.status = Status::Failed(STORAGE_FAULT);
                    return None;
                }
            },
            Some(Block::Print) => {
                out = Some(Output::Number(self.val));
            },
            Some(Block::Display) => {
                out = Some(Output::Character(self.val));
            },
            None => {},
        }
        self.advance(g);
        out
    }
}

} // verus!
