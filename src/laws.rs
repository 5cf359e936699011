use vstd::prelude::*;
use vstd::arithmetic::div_mod::{lemma_fundamental_div_mod, lemma_mod_pos_bound};
use crate::block::Direction;
use crate::grid::{Grid, lemma_index_in_grid};
use crate::machine::{
    advance, column, execute, find_start, initial, is_start, live_on_grid, neighbour, next,
    outputs, row,
    run_steps, Machine, Output,
};
use crate::run::{first_stop, run_result, stopped, STEP_LIMIT};

verus! {

/// `a` steps followed by `b` steps are `a + b` steps.
pub proof fn lemma_run_steps_add(g: &Grid, m: Machine, a: nat, b: nat)
    ensures
        run_steps(g, run_steps(g, m, a), b) == run_steps(g, m, a + b),
    decreases b,
{
    if b > 0 {
        lemma_run_steps_add(g, m, a, (b - 1) as nat);
        assert(a + b - 1 == a + (b - 1));
    }
}

/// The output of `a` steps followed by that of `b` more steps is the output
/// of `a + b` steps.
pub proof fn lemma_outputs_add(g: &Grid, m: Machine, a: nat, b: nat)
    ensures
        outputs(g, m, a) + outputs(g, run_steps(g, m, a), b) == outputs(g, m, a + b),
    decreases b,
{
    if b == 0 {
        assert(outputs(g, m, a) + Seq::<Output>::empty() == outputs(g, m, a));
    } else {
        lemma_outputs_add(g, m, a, (b - 1) as nat);
        lemma_run_steps_add(g, m, a, (b - 1) as nat);
        assert(a + b - 1 == a + (b - 1));
        let prev = outputs(g, m, a);
        let rest = outputs(g, run_steps(g, m, a), (b - 1) as nat);
        assert forall|o: Output| #[trigger] (prev + rest.push(o)) == (prev + rest).push(o) by {
            assert((prev + rest.push(o)) =~= (prev + rest).push(o));
        }
    }
}

/// Runs are deterministic: two runs of the same program from the same state,
/// with the same breakpoints, take the same number of steps, reach the same
/// state, emit the same output and return the same result.
pub proof fn lemma_run_deterministic(
    g: &Grid,
    bps: Seq<(usize, usize)>,
    m: Machine,
    out0: Seq<Output>,
    n1: nat,
    m1: Machine,
    out1: Seq<Output>,
    r1: Result<(), u8>,
    n2: nat,
    m2: Machine,
    out2: Seq<Output>,
    r2: Result<(), u8>,
)
    requires
        run_result(g, bps, m, n1, m1, out0, out1, r1),
        run_result(g, bps, m, n2, m2, out0, out2, r2),
    ensures
        n1 == n2,
        m1 == m2,
        out1 == out2,
        r1 == r2,
{
    if n1 < n2 {
        assert(stopped(bps, run_steps(g, m, n1)));
        assert(!stopped(bps, run_steps(g, m, n1)));
    } else if n2 < n1 {
        assert(stopped(bps, run_steps(g, m, n2)));
        assert(!stopped(bps, run_steps(g, m, n2)));
    }
}

/// Resuming after a pause reaches the stop that an uninterrupted execution
/// from the pause would reach: if a run from `m` pauses on a breakpoint after
/// `k` steps and the next run stops after `j` more, then the second run ends
/// in the state and with the output of `k + j` steps from `m`, no step in
/// between stopped, and step `k + j` does.
pub proof fn lemma_resume_after_pause(
    g: &Grid,
    bps: Seq<(usize, usize)>,
    m: Machine,
    k: nat,
    j: nat,
)
    requires
        first_stop(g, bps, m, k),
        run_steps(g, m, k).status is Running,
        first_stop(g, bps, run_steps(g, m, k), j),
    ensures
        run_steps(g, run_steps(g, m, k), j) == run_steps(g, m, k + j),
        outputs(g, m, k) + outputs(g, run_steps(g, m, k), j) == outputs(g, m, k + j),
        forall|i: nat| k < i < k + j ==> !stopped(bps, #[trigger] run_steps(g, m, i)),
        stopped(bps, run_steps(g, m, k + j)),
{
    lemma_run_steps_add(g, m, k, j);
    lemma_outputs_add(g, m, k, j);
    assert forall|i: nat| k < i < k + j implies !stopped(bps, #[trigger] run_steps(g, m, i)) by {
        lemma_run_steps_add(g, m, k, (i - k) as nat);
        assert(k + (i - k) == i);
        assert(!stopped(bps, run_steps(g, run_steps(g, m, k), (i - k) as nat)));
    }
}

proof fn lemma_find_start_bound(g: &Grid, i: nat)
    ensures
        find_start(g, i) matches Some(k) ==> i <= k < g.cells_spec().len() && is_start(
            g.cell(k as int),
        ),
    decreases g.cells_spec().len() - i,
{
    if i < g.cells_spec().len() && !is_start(g.cell(i as int)) {
        lemma_find_start_bound(g, i + 1);
    }
}

proof fn lemma_neighbour_on_grid(g: &Grid, pos: nat, d: Direction)
    requires
        g.wf(),
        pos < g.cells_spec().len(),
    ensures
        neighbour(g, pos, d) matches Some(p) ==> p < g.cells_spec().len(),
{
    let w = g.width_spec();
    let h = g.height_spec();
    assert(w > 0) by (nonlinear_arith)
        requires
            pos < w * h,
    ;
    lemma_fundamental_div_mod(pos as int, w as int);
    lemma_mod_pos_bound(pos as int, w as int);
    let x = column(g, pos);
    let y = row(g, pos);
    assert(pos == y * w + x) by (nonlinear_arith)
        requires
            pos as int == w as int * (pos as int / w as int) + pos as int % w as int,
            x == pos as int % w as int,
            y == pos as int / w as int,
            pos as int / w as int >= 0,
    ;
    assert(y < h) by (nonlinear_arith)
        requires
            pos == y * w + x,
            pos < w * h,
    ;
    match d {
        Direction::Down => {
            if y + 1 < h {
                lemma_index_in_grid(x, y + 1, w, h);
                assert((y + 1) * w == y * w + w) by (nonlinear_arith);
            }
        },
        Direction::Right => {
            if x + 1 < w {
                lemma_index_in_grid(x + 1, y, w, h);
            }
        },
        Direction::Up => {
            if y > 0 {
                assert(pos >= w) by (nonlinear_arith)
                    requires
                        pos == y * w + x,
                        y > 0,
                ;
            }
        },
        Direction::Left => {},
    }
}

/// Bounds safety of one step: a step from a machine whose cursor is on the
/// grid (or that has failed) leaves a machine for which the same holds. Only a
/// failing step may try to leave the grid, and it keeps the cursor where it
/// was.
pub proof fn lemma_next_live(g: &Grid, m: Machine)
    requires
        g.wf(),
        live_on_grid(g, m),
    ensures
        live_on_grid(g, next(g, m)),
{
    if m.status is Running {
        let e = execute(m, g.cell(m.pos as int));
        if e.status is Running {
            lemma_neighbour_on_grid(g, e.pos, e.dir);
            assert(live_on_grid(g, advance(g, e)));
        }
    }
}

/// Bounds safety of any run: from a machine whose cursor is on the grid while
/// it runs, every machine that `n` steps reach has its cursor on the grid
/// while it runs or once it halted.
pub proof fn lemma_run_steps_live(g: &Grid, m: Machine, n: nat)
    requires
        g.wf(),
        live_on_grid(g, m),
    ensures
        live_on_grid(g, run_steps(g, m, n)),
    decreases n,
{
    if n > 0 {
        lemma_run_steps_live(g, m, (n - 1) as nat);
        lemma_next_live(g, run_steps(g, m, (n - 1) as nat));
    }
}

/// Bounds safety: at every step of a run from the start, a machine that is
/// still running (or has halted) has its cursor on the grid, at a column
/// below the width and a row below the height.
pub proof fn lemma_bounds_safety(g: &Grid, n: nat)
    requires
        g.wf(),
    ensures
        live_on_grid(g, run_steps(g, initial(g), n)),
        run_steps(g, initial(g), n).status is Running ==> {
            let p = run_steps(g, initial(g), n).pos;
            &&& column(g, p) < g.width_spec()
            &&& row(g, p) < g.height_spec()
        },
    decreases n,
{
    if n == 0 {
        lemma_find_start_bound(g, 0);
    } else {
        lemma_bounds_safety(g, (n - 1) as nat);
        lemma_next_live(g, run_steps(g, initial(g), (n - 1) as nat));
    }
    let p = run_steps(g, initial(g), n).pos;
    if run_steps(g, initial(g), n).status is Running {
        let w = g.width_spec();
        let h = g.height_spec();
        assert(w > 0) by (nonlinear_arith)
            requires
                p < w * h,
        ;
        lemma_fundamental_div_mod(p as int, w as int);
        lemma_mod_pos_bound(p as int, w as int);
        assert(row(g, p) < h) by (nonlinear_arith)
            requires
                p as int == w as int * (p as int / w as int) + p as int % w as int,
                p as int % w as int >= 0,
                p < w * h,
                row(g, p) == p as int / w as int,
        ;
    }
}

/// A run that stops on a halt or a failure, not on a breakpoint, stops where a
/// run without breakpoints would.
pub proof fn lemma_stop_without_pause(g: &Grid, bps: Seq<(usize, usize)>, m: Machine, k: nat)
    requires
        first_stop(g, bps, m, k),
        !(run_steps(g, m, k).status is Running),
    ensures
        first_stop(g, Seq::empty(), m, k),
{
    assert forall|i: nat| 1 <= i < k implies !stopped(
        Seq::<(usize, usize)>::empty(),
        #[trigger] run_steps(g, m, i),
    ) by {
        assert(!stopped(bps, run_steps(g, m, i)));
    }
}

/// Pausing never skips or repeats a step: if a run with breakpoints `bps`
/// pauses after `k` steps, and the run without breakpoints from the pause
/// stops after `j` more, then the run without breakpoints from `m` stops after
/// `k + j` steps, in the same state and with the same output in total. With
/// `lemma_stop_without_pause` this carries over any number of pauses.
pub proof fn lemma_pause_then_free_run(
    g: &Grid,
    bps: Seq<(usize, usize)>,
    m: Machine,
    k: nat,
    j: nat,
)
    requires
        first_stop(g, bps, m, k),
        run_steps(g, m, k).status is Running,
        first_stop(g, Seq::empty(), run_steps(g, m, k), j),
    ensures
        first_stop(g, Seq::empty(), m, k + j),
        run_steps(g, run_steps(g, m, k), j) == run_steps(g, m, k + j),
        outputs(g, m, k) + outputs(g, run_steps(g, m, k), j) == outputs(g, m, k + j),
{
    let e = Seq::<(usize, usize)>::empty();
    lemma_run_steps_add(g, m, k, j);
    lemma_outputs_add(g, m, k, j);
    assert forall|i: nat| 1 <= i < k + j implies !stopped(e, #[trigger] run_steps(g, m, i)) by {
        if i < k {
            assert(!stopped(bps, run_steps(g, m, i)));
        } else if i > k {
            lemma_run_steps_add(g, m, k, (i - k) as nat);
            assert(k + (i - k) == i);
            assert(!stopped(e, run_steps(g, run_steps(g, m, k), (i - k) as nat)));
        }
    }
}

/// Two grids with the same dimensions and cells start alike and run alike:
/// in particular, two debuggers built from the same text behave the same.
pub proof fn lemma_same_grid_same_run(g1: &Grid, g2: &Grid, m: Machine, n: nat)
    requires
        g1.width_spec() == g2.width_spec(),
        g1.height_spec() == g2.height_spec(),
        g1.cells_spec() == g2.cells_spec(),
    ensures
        initial(g1) == initial(g2),
        run_steps(g1, m, n) == run_steps(g2, m, n),
        outputs(g1, m, n) == outputs(g2, m, n),
    decreases n,
{
    lemma_same_start(g1, g2, 0);
    if n > 0 {
        lemma_same_grid_same_run(g1, g2, m, (n - 1) as nat);
    }
}

proof fn lemma_same_start(g1: &Grid, g2: &Grid, i: nat)
    requires
        g1.cells_spec() == g2.cells_spec(),
    ensures
        find_start(g1, i) == find_start(g2, i),
    decreases g1.cells_spec().len() - i,
{
    if i < g1.cells_spec().len() {
        lemma_same_start(g1, g2, i + 1);
    }
}

} // verus!
