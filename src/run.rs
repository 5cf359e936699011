use vstd::prelude::*;
use crate::grid::Grid;
use crate::machine::{
    next, outputs, run_steps, ExecState, Machine, Output, Status,
};

verus! {

/// Failure code of a run that stopped on a breakpoint: the run can be resumed.
pub const PAUSED: u8 = 4;

/// Failure code of a run that took `STEP_LIMIT` steps without stopping.
pub const STEP_LIMIT_REACHED: u8 = 6;

/// The most steps one run takes before it gives up.
pub const STEP_LIMIT: u64 = 0xffff_ffff_ffff_ffff;

/// The inclusive range `b.0..=b.1` holds `pos`.
pub open spec fn covers(b: (usize, usize), pos: nat) -> bool {
    b.0 <= pos <= b.1
}

/// Position `pos` lies in one of the inclusive ranges `from..=to` of `bps`.
pub open spec fn in_breakpoint(bps: Seq<(usize, usize)>, pos: nat) -> bool {
    exists|k: int| 0 <= k < bps.len() && covers(#[trigger] bps[k], pos)
}

/// A run stops at `m`: the machine halted or failed, or its cursor is in a
/// breakpoint.
pub open spec fn stopped(bps: Seq<(usize, usize)>, m: Machine) -> bool {
    !(m.status is Running) || in_breakpoint(bps, m.pos)
}

/// The `n`-th step from `m` is the first after which the run stops.
pub open spec fn first_stop(g: &Grid, bps: Seq<(usize, usize)>, m: Machine, n: nat) -> bool {
    &&& n >= 1
    &&& stopped(bps, run_steps(g, m, n))
    &&& forall|j: nat| 1 <= j < n ==> !stopped(bps, #[trigger] run_steps(g, m, j))
}

/// What a run that stopped at `m` returns: success on halt, the failure code
/// on failure, `PAUSED` on a breakpoint.
pub open spec fn outcome(m: Machine) -> Result<(), u8> {
    match m.status {
        Status::Halted => Ok(()),
        Status::Failed(c) => Err(c),
        Status::Running => Err(PAUSED),
    }
}

/// What a run from `m` did when it took `n` steps, left `m1`, turned the output
/// log `out0` into `out1` and returned `r`: either the `n`-th step was the first stop,
/// and `r` is its outcome, or `n` is the step limit and no step stopped.
pub open spec fn run_result(
    g: &Grid,
    bps: Seq<(usize, usize)>,
    m: Machine,
    n: nat,
    m1: Machine,
    out0: Seq<Output>,
    out1: Seq<Output>,
    r: Result<(), u8>,
) -> bool {
    &&& m1 == run_steps(g, m, n)
    &&& out1 == out0 + outputs(g, m, n)
    &&& {
        ||| n <= STEP_LIMIT && first_stop(g, bps, m, n) && r == outcome(m1)
        ||| n == STEP_LIMIT && r == Err::<(), u8>(STEP_LIMIT_REACHED) && forall|j: nat|
            1 <= j <= n ==> !stopped(bps, #[trigger] run_steps(g, m, j))
    }
}

/// Whether `pos` lies in one of the ranges of `bps`.
pub fn in_breakpoints(bps: &Vec<(usize, usize)>, pos: usize) -> (r: bool)
    ensures
        r == in_breakpoint(bps@, pos as nat),
{
    let mut k: usize = 0;
    while k < bps.len()
        invariant
            k <= bps@.len(),
            forall|i: int| 0 <= i < k ==> !covers(#[trigger] bps@[i], pos as nat),
        decreases bps@.len() - k,
    {
        let (from, to) = bps[k];
        if from <= pos && pos <= to {
            assert(covers(bps@[k as int], pos as nat));
            return true;
        }
        k = k + 1;
    }
    false
}

/// Steps `s` on grid `g` until it halts, fails or enters a breakpoint of
/// `bps`, appending what it emits to `out`.
pub fn run_until_stop(
    g: &Grid,
    s: &mut ExecState,
    bps: &Vec<(usize, usize)>,
    out: &mut Vec<Output>,
) -> (r: Result<(), u8>)
    requires
        g.wf(),
        old(s).inv(g),
    ensures
        final(s).inv(g),
        exists|n: nat| #[trigger] run_result(g, bps@, old(s)@, n, final(s)@, old(out)@, final(out)@, r),
{
    let ghost m0 = s@;
    let ghost out0 = out@;
    let mut i: u64 = 0;
    loop
        invariant
            g.wf(),
            s.inv(g),
            m0 == old(s)@,
            out0 == old(out)@,
            i <= STEP_LIMIT,
            s@ == run_steps(g, m0, i as nat),
            out@ == out0 + outputs(g, m0, i as nat),
            forall|j: nat| 1 <= j <= i ==> !stopped(bps@, #[trigger] run_steps(g, m0, j)),
        decreases STEP_LIMIT - i,
    {
        if i == STEP_LIMIT {
            proof {
                assert(run_result(g, bps@, m0, i as nat, s@, out0, out@, Err::<(), u8>(STEP_LIMIT_REACHED)));
            }
            return Err(STEP_LIMIT_REACHED);
        }
        let ghost before = s@;
        let o = s.step(g);
        if let Some(o) = o {
            out.push(o);
        }
        i = i + 1;
        proof {
            assert(run_steps(g, m0, i as nat) == next(g, run_steps(g, m0, (i - 1) as nat)));
            assert(out@ == out0 + outputs(g, m0, i as nat));
        }
        let stop = match s.status {
            Status::Halted => Some(Ok(())),
            Status::Failed(c) => Some(Err(c)),
            Status::Running => if in_breakpoints(bps, s.pos) {
                Some(Err(PAUSED))
            } else {
                None
            },
        };
        if let Some(r) = stop {
            proof {
                assert(first_stop(g, bps@, m0, i as nat));
                assert(run_result(g, bps@, m0, i as nat, s@, out0, out@, r));

            }
            return r;
        }
    }
}

} // verus!
