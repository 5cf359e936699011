use vstd::prelude::*;
use crate::block::{Block, Direction};
use crate::format::{grid_text, parse, parsable, unparse};
use crate::grid::{ConstGrid, Grid};
use crate::machine::{initial, run_steps, ExecState, Output};
use crate::run::{run_result, run_until_stop};

verus! {

/// Failure code: the program text is the text of no grid.
pub const PARSE_ERROR: u8 = 7;

/// Relies on `str::chars`: the characters of `s`, in order.
#[verifier::external_body]
pub(crate) fn chars_of(s: &str) -> (r: Vec<char>)
    ensures
        r@ == s@,
{
    s.chars().collect()
}

/// Relies on `String: FromIterator<&char>`: the string of the characters of `v`,
/// in order.
#[verifier::external_body]
pub(crate) fn string_of(v: &Vec<char>) -> (r: String)
    ensures
        r@ == v@,
{
    v.iter().collect()
}

impl Grid {
    /// Runs the program from its start until it halts or fails (or takes
    /// `STEP_LIMIT` steps), appending its output to `out`.
    pub fn interpret(&self, out: &mut Vec<Output>) -> (r: Result<(), u8>)
        requires
            self.wf(),
        ensures
            exists|n: nat|
                #[trigger] run_result(
                    self,
                    Seq::empty(),
                    initial(self),
                    n,
                    run_steps(self, initial(self), n),
                    old(out)@,
                    final(out)@,
                    r,
                ),
    {
        let mut s = ExecState::new(self);
        let ghost m0 = s@;
        let bps: Vec<(usize, usize)> = Vec::new();
        let r = run_until_stop(self, &mut s, &bps, out);
        proof {
            let n = choose|n: nat|
                #[trigger] run_result(self, bps@, m0, n, s@, old(out)@, out@, r);
            assert(bps@ == Seq::<(usize, usize)>::empty());
            assert(run_result(self, Seq::empty(), initial(self), n, run_steps(self, initial(self), n), old(out)@, out@, r));
        }
        r
    }
}

impl<const N: usize> ConstGrid<N> {
    /// Runs the program as the `Grid` of the same cells does.
    pub fn interpret(&self, out: &mut Vec<Output>) -> (r: Result<(), u8>)
        requires
            self.wf(),
        ensures
            exists|g: Grid, n: nat|
                g.wf() && g.width_spec() == self.width && g.height_spec() == self.height
                    && g.cells_spec() == self.cells@ && #[trigger] run_result(
                    &g,
                    Seq::empty(),
                    initial(&g),
                    n,
                    run_steps(&g, initial(&g), n),
                    old(out)@,
                    final(out)@,
                    r,
                ),
    {
        let g = self.to_grid();
        let r = g.interpret(out);
        proof {
            let n = choose|n: nat|
                #[trigger] run_result(&g, Seq::empty(), initial(&g), n, run_steps(&g, initial(&g), n), old(out)@, out@, r);
            assert(run_result(&g, Seq::empty(), initial(&g), n, run_steps(&g, initial(&g), n), old(out)@, out@, r));
        }
        r
    }
}

/// The cells of the built-in program, five wide and three high.
pub open spec fn demo_cells() -> Seq<Option<Block>> {
    seq![
        Some(Block::Start(Direction::Down)),
        None,
        Some(Block::Redirect(Direction::Right)),
        Some(Block::Redirect(Direction::Down)),
        Some(Block::End),
        Some(Block::SetVal(43)),
        None,
        Some(Block::Store),
        Some(Block::OpAdd),
        Some(Block::Print),
        Some(Block::Redirect(Direction::Right)),
        Some(Block::Display),
        Some(Block::Redirect(Direction::Up)),
        Some(Block::Redirect(Direction::Right)),
        Some(Block::Redirect(Direction::Up)),
    ]
}

/// The built-in program.
pub fn demo_program() -> (g: Grid)
    ensures
        g.wf(),
        g.width_spec() == 5,
        g.height_spec() == 3,
        g.cells_spec() == demo_cells(),
{
    let program: ConstGrid<15> = ConstGrid {
        cells: [
            Some(Block::Start(Direction::Down)),
            None,
            Some(Block::Redirect(Direction::Right)),
            Some(Block::Redirect(Direction::Down)),
            Some(Block::End),
            Some(Block::SetVal(43)),
            None,
            Some(Block::Store),
            Some(Block::OpAdd),
            Some(Block::Print),
            Some(Block::Redirect(Direction::Right)),
            Some(Block::Display),
            Some(Block::Redirect(Direction::Up)),
            Some(Block::Redirect(Direction::Right)),
            Some(Block::Redirect(Direction::Up)),
        ],
        width: 5,
        height: 3,
    };
    assert(program.cells@ =~= demo_cells());
    assert(program.cells@.len() == 15);
    assert(program.width * program.height == 15) by (nonlinear_arith)
        requires
            program.width == 5,
            program.height == 3,
    ;
    program.to_grid()
}

/// Runs the built-in program, appending its output to `out`.
pub fn run(out: &mut Vec<Output>) -> (r: Result<(), u8>)
    ensures
        exists|g: Grid, n: nat|
            g.cells_spec() == demo_cells() && g.width_spec() == 5 && g.height_spec() == 3
                && #[trigger] run_result(
                &g,
                Seq::empty(),
                initial(&g),
                n,
                run_steps(&g, initial(&g), n),
                old(out)@,
                final(out)@,
                r,
            ),
{
    let g = demo_program();
    let r = g.interpret(out);
    proof {
        let n = choose|n: nat|
            #[trigger] run_result(&g, Seq::empty(), initial(&g), n, run_steps(&g, initial(&g), n), old(out)@, out@, r);
        assert(run_result(&g, Seq::empty(), initial(&g), n, run_steps(&g, initial(&g), n), old(out)@, out@, r));
    }
    r
}

/// The grid whose text is `code`, or `None` when `code` is the text of no grid.
pub fn grid_from_code(code: &str) -> (r: Option<Grid>)
    ensures
        r matches Some(g) ==> g.wf() && parsable(&g) && grid_text(&g) == code@,
        r is None <==> forall|g: Grid| g.wf() ==> #[trigger] grid_text(&g) != code@,
{
    let chars = chars_of(code);
    parse(&chars)
}

/// Parses `code` and runs it, appending its output to `out`; fails with
/// `PARSE_ERROR`, running nothing, when `code` is the text of no grid.
pub fn execute_code(code: String, out: &mut Vec<Output>) -> (r: Result<(), u8>)
    ensures
        (forall|g: Grid| g.wf() ==> #[trigger] grid_text(&g) != code@) ==> r == Err::<(), u8>(
            PARSE_ERROR,
        ) && final(out)@ == old(out)@,
        (exists|g: Grid| g.wf() && #[trigger] grid_text(&g) == code@) ==> exists|g: Grid, n: nat|
            g.wf() && parsable(&g) && grid_text(&g) == code@ && #[trigger] run_result(
                &g,
                Seq::empty(),
                initial(&g),
                n,
                run_steps(&g, initial(&g), n),
                old(out)@,
                final(out)@,
                r,
            ),
{
    match grid_from_code(code.as_str()) {
        None => Err(PARSE_ERROR),
        Some(g) => {
            let r = g.interpret(out);
            proof {
                let n = choose|n: nat|
                    #[trigger] run_result(&g, Seq::empty(), initial(&g), n, run_steps(&g, initial(&g), n), old(out)@, out@, r);
                assert(run_result(&g, Seq::empty(), initial(&g), n, run_steps(&g, initial(&g), n), old(out)@, out@, r));
            }
            r
        },
    }
}

/// The text of the grid that `code` stands for, written afresh; `None` when
/// `code` is the text of no grid. Any text that parses comes back unchanged.
pub fn get_code_str(code: String) -> (r: Option<String>)
    ensures
        r is None <==> forall|g: Grid| g.wf() ==> #[trigger] grid_text(&g) != code@,
        r matches Some(s) ==> s@ == code@,
{
    match grid_from_code(code.as_str()) {
        None => None,
        Some(g) => {
            let chars = unparse(&g);
            Some(string_of(&chars))
        },
    }
}

} // verus!
