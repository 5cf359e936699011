//! A virtual machine for a two-dimensional, direction-based language, with a
//! breakpoint-aware stepping debugger.
//!
//! A program is a rectangular grid of cells. A cursor crosses the grid one cell
//! per step; the cell it leaves may change its direction, the accumulator or
//! the storage stack, or emit an output, until the cursor lands on an `End`
//! cell.

mod block;
mod debugger;
mod format;
mod grid;
mod laws;
mod machine;
mod program;
mod run;

pub use block::{Block, Direction, Value};
pub use debugger::{M43Debugger, M43State, ODD_BREAKPOINTS};
pub use format::{parse, unparse};
pub use grid::{ConstGrid, Grid};
pub use machine::{
    ExecState, Output, Status, MISSING_START, OUT_OF_BOUNDS, STORAGE_FAULT, STORAGE_SIZE,
};
pub use program::{
    demo_program, execute_code, get_code_str, grid_from_code, run, PARSE_ERROR,
};
pub use run::{in_breakpoints, run_until_stop, PAUSED, STEP_LIMIT, STEP_LIMIT_REACHED};
