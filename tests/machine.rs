use m43lang::{
    demo_program, execute_code, get_code_str, grid_from_code, parse, run, unparse, Block,
    Direction, Grid, M43Debugger, Output, Status, MISSING_START, ODD_BREAKPOINTS,
    OUT_OF_BOUNDS, PARSE_ERROR, PAUSED, STORAGE_FAULT, STORAGE_SIZE,
};

fn grid(width: usize, height: usize, cells: Vec<Option<Block>>) -> Grid {
    Grid::new(width, height, cells).expect("cell count matches dimensions")
}

fn debugger(g: Grid, points: Vec<usize>) -> M43Debugger {
    M43Debugger::from_grid(g, points).expect("even breakpoint list")
}

fn same_grid(a: &Grid, b: &Grid) -> bool {
    a.width() == b.width()
        && a.height() == b.height()
        && a.len() == b.len()
        && (0..a.len()).all(|i| a.get(i) == b.get(i))
}

fn line_program(cells: Vec<Option<Block>>) -> Grid {
    let n = cells.len();
    grid(n, 1, cells)
}

#[test]
fn redirect_sets_exit_direction() {
    let g = grid(
        2,
        2,
        vec![
            Some(Block::Start(Direction::Right)),
            Some(Block::Redirect(Direction::Down)),
            None,
            None,
        ],
    );
    let mut d = debugger(g, vec![]);
    assert_eq!(d.step(), Ok(()));
    let s = d.get_state();
    assert_eq!((s.get_coords_x(), s.get_coords_y()), (1, 0));
    assert_eq!(s.pos, 1);
    assert_eq!(s.dir, 'R');
    assert_eq!(d.step(), Ok(()));
    let s = d.get_state();
    assert_eq!((s.get_coords_x(), s.get_coords_y()), (1, 1));
    assert_eq!(s.pos, 3);
    assert_eq!(s.dir, 'D');
}

#[test]
fn halts_after_one_step() {
    let g = grid(1, 2, vec![Some(Block::Start(Direction::Down)), Some(Block::End)]);
    let mut d = debugger(g, vec![]);
    assert_eq!(d.status(), Status::Running);
    assert_eq!(d.step(), Ok(()));
    assert_eq!(d.status(), Status::Halted);
    assert!(d.take_output().is_empty());
    assert_eq!(d.step(), Ok(()));
    assert_eq!(d.status(), Status::Halted);
}

#[test]
fn literal_printed_once() {
    let g = line_program(vec![
        Some(Block::Start(Direction::Right)),
        Some(Block::SetVal(43)),
        Some(Block::Print),
        Some(Block::End),
    ]);
    let mut d = debugger(g, vec![]);
    assert_eq!(d.step(), Ok(()));
    assert_eq!(d.status(), Status::Running);
    assert_eq!(d.step(), Ok(()));
    assert_eq!(d.status(), Status::Running);
    assert_eq!(d.step(), Ok(()));
    assert_eq!(d.status(), Status::Halted);
    assert_eq!(d.take_output(), vec![Output::Number(43)]);
    assert_eq!(d.get_state().val, 43);
}

#[test]
fn literal_program_from_text() {
    let mut out = Vec::new();
    assert_eq!(execute_code("S>.#2bP..E..\n".to_string(), &mut out), Ok(()));
    assert_eq!(out, vec![Output::Number(43)]);
}

#[test]
fn odd_breakpoint_list_rejected() {
    let g = grid(1, 2, vec![Some(Block::Start(Direction::Down)), Some(Block::End)]);
    assert!(matches!(M43Debugger::from_grid(g, vec![0]), Err(ODD_BREAKPOINTS)));
    assert!(matches!(
        M43Debugger::new("Sv.\nE..\n".to_string(), vec![0]),
        Err(ODD_BREAKPOINTS)
    ));
    assert!(M43Debugger::new("Sv.\nE..\n".to_string(), vec![0, 1]).is_ok());
}

#[test]
fn unparseable_code_rejected() {
    assert!(matches!(M43Debugger::new("S>.E.\n".to_string(), vec![]), Err(PARSE_ERROR)));
    let mut out = Vec::new();
    assert_eq!(execute_code("abc".to_string(), &mut out), Err(PARSE_ERROR));
    assert!(out.is_empty());
}

#[test]
fn parse_rejects_malformed_text() {
    for text in ["abc", "S>.E.\n", "S>.\nE..E..\n", "X..\n", "#g0\n", "S>.E..", "Sx.\n"] {
        assert!(grid_from_code(text).is_none(), "{text:?}");
    }
}

#[test]
fn parse_reads_every_kind_of_cell() {
    let g = grid_from_code("S^.Rv.R<.R>.\nE..#ffW..A..\nP..D.....#00\n").expect("valid text");
    assert_eq!((g.width(), g.height()), (4, 3));
    let expected = vec![
        Some(Block::Start(Direction::Up)),
        Some(Block::Redirect(Direction::Down)),
        Some(Block::Redirect(Direction::Left)),
        Some(Block::Redirect(Direction::Right)),
        Some(Block::End),
        Some(Block::SetVal(255)),
        Some(Block::Store),
        Some(Block::OpAdd),
        Some(Block::Print),
        Some(Block::Display),
        None,
        Some(Block::SetVal(0)),
    ];
    for (i, c) in expected.into_iter().enumerate() {
        assert_eq!(g.get(i), c);
    }
    assert_eq!(g.get_at(1, 1), Some(Block::SetVal(255)));
    assert_eq!(g.get_at(4, 0), None);
}

#[test]
fn empty_text_is_empty_grid() {
    let g = grid_from_code("").expect("empty grid");
    assert_eq!((g.width(), g.height(), g.len()), (0, 0, 0));
    let g = grid_from_code("\n\n").expect("grid of no column");
    assert_eq!((g.width(), g.height(), g.len()), (0, 2, 0));
}

#[test]
fn round_trip_through_text() {
    let g = demo_program();
    let text = unparse(&g);
    let back = parse(&text).expect("the text of a grid parses");
    assert!(same_grid(&g, &back));
    let s: String = text.iter().collect();
    assert_eq!(
        s,
        "Sv....R>.Rv.E..\n#2b...W..A..P..\nR>.D..R^.R>.R^.\n"
    );
    assert_eq!(get_code_str(s.clone()), Some(s));
    assert_eq!(get_code_str("S>.E.\n".to_string()), None);
}

#[test]
fn repeated_runs_agree() {
    let mut first = Vec::new();
    let mut second = Vec::new();
    let r1 = run(&mut first);
    let r2 = run(&mut second);
    assert_eq!(r1, r2);
    assert_eq!(first, second);
    let code = "S>.#05W..#07W..A..P..D..E..\n";
    let mut a = debugger(grid_from_code(code).unwrap(), vec![]);
    let mut b = debugger(grid_from_code(code).unwrap(), vec![]);
    assert_eq!(a.run(), b.run());
    assert_eq!(a.take_output(), b.take_output());
    let (sa, sb) = (a.get_state(), b.get_state());
    assert_eq!((sa.pos, sa.val, sa.dir), (sb.pos, sb.val, sb.dir));
    assert_eq!(sa.get_storage(), sb.get_storage());
}

#[test]
fn builtin_program_outputs() {
    let mut out = Vec::new();
    assert_eq!(run(&mut out), Err(STORAGE_FAULT));
    assert_eq!(out, vec![Output::Character(43)]);
}

#[test]
fn leaving_the_grid_fails_on_grid() {
    let g = line_program(vec![Some(Block::Start(Direction::Right)), None]);
    let mut d = debugger(g, vec![]);
    assert_eq!(d.step(), Ok(()));
    assert_eq!(d.get_state().pos, 1);
    assert_eq!(d.step(), Err(OUT_OF_BOUNDS));
    let s = d.get_state();
    assert_eq!(s.pos, 1);
    assert_eq!((s.get_coords_x(), s.get_coords_y()), (1, 0));
    assert_eq!(d.status(), Status::Failed(OUT_OF_BOUNDS));
    assert_eq!(d.step(), Err(OUT_OF_BOUNDS));
    assert_eq!(d.run(), Err(OUT_OF_BOUNDS));
}

#[test]
fn each_direction_can_leave_the_grid() {
    for (start, code) in [
        (Direction::Up, OUT_OF_BOUNDS),
        (Direction::Down, OUT_OF_BOUNDS),
        (Direction::Left, OUT_OF_BOUNDS),
        (Direction::Right, OUT_OF_BOUNDS),
    ] {
        let g = grid(1, 1, vec![Some(Block::Start(start))]);
        let mut d = debugger(g, vec![]);
        assert_eq!(d.run(), Err(code));
        assert_eq!(d.get_state().pos, 0);
    }
}

#[test]
fn resume_after_breakpoint() {
    let code = "S>.#01P.....#02P..E..\n";
    let mut paused = debugger(grid_from_code(code).unwrap(), vec![3, 3]);
    assert_eq!(paused.run(), Err(PAUSED));
    assert_eq!(paused.get_state().pos, 3);
    assert!(paused.at_breakpoint());
    assert_eq!(paused.take_output(), vec![Output::Number(1)]);
    assert_eq!(paused.run(), Ok(()));
    assert_eq!(paused.take_output(), vec![Output::Number(2)]);
    let paused_state = paused.get_state();

    let mut straight = debugger(grid_from_code(code).unwrap(), vec![]);
    assert_eq!(straight.run(), Ok(()));
    assert_eq!(
        straight.take_output(),
        vec![Output::Number(1), Output::Number(2)]
    );
    let straight_state = straight.get_state();
    assert_eq!(paused_state.pos, straight_state.pos);
    assert_eq!(paused_state.val, straight_state.val);
}

#[test]
fn overlapping_breakpoints_pause_once_each_step() {
    let code = "S>.......E..\n";
    let mut d = debugger(grid_from_code(code).unwrap(), vec![1, 2, 2, 2]);
    assert_eq!(d.run(), Err(PAUSED));
    assert_eq!(d.get_state().pos, 1);
    assert_eq!(d.run(), Err(PAUSED));
    assert_eq!(d.get_state().pos, 2);
    assert_eq!(d.run(), Ok(()));
    assert_eq!(d.get_state().pos, 3);
}

#[test]
fn reversed_breakpoint_range_is_empty() {
    let code = "S>.......E..\n";
    let mut d = debugger(grid_from_code(code).unwrap(), vec![2, 1]);
    assert_eq!(d.run(), Ok(()));
}

#[test]
fn store_and_add_use_a_stack() {
    let mut out = Vec::new();
    let code = "S>.#02W..#03W..A..P..E..\n";
    assert_eq!(execute_code(code.to_string(), &mut out), Ok(()));
    assert_eq!(out, vec![Output::Number(5)]);
    let mut d = debugger(grid_from_code(code).unwrap(), vec![]);
    assert_eq!(d.run(), Ok(()));
    let s = d.get_state();
    assert_eq!(s.get_storage_size(), STORAGE_SIZE);
    assert_eq!(s.get_storage().len(), STORAGE_SIZE);
    assert_eq!(s.get_storage()[0], 2);
    assert_eq!(s.get_storage()[1], 3);
    assert_eq!(s.val, 5);
}

#[test]
fn add_wraps_around() {
    let mut out = Vec::new();
    let code = "S>.#c8W..W..A..P..D..E..\n";
    assert_eq!(execute_code(code.to_string(), &mut out), Ok(()));
    assert_eq!(out, vec![Output::Number(144), Output::Character(144)]);
}

#[test]
fn add_needs_two_stored_values() {
    let mut out = Vec::new();
    assert_eq!(
        execute_code("S>.#01W..A..E..\n".to_string(), &mut out),
        Err(STORAGE_FAULT)
    );
    let mut d = debugger(grid_from_code("S>.A..E..\n").unwrap(), vec![]);
    assert_eq!(d.step(), Ok(()));
    assert_eq!(d.step(), Err(STORAGE_FAULT));
    assert_eq!(d.get_state().pos, 1);
}

#[test]
fn store_fails_when_storage_is_full() {
    let mut cells = vec![Some(Block::Start(Direction::Right))];
    cells.extend(std::iter::repeat(Some(Block::Store)).take(STORAGE_SIZE));
    cells.push(Some(Block::End));
    let mut d = debugger(line_program(cells.clone()), vec![]);
    assert_eq!(d.run(), Ok(()));
    let mut cells_over = vec![Some(Block::Start(Direction::Right))];
    cells_over.extend(std::iter::repeat(Some(Block::Store)).take(STORAGE_SIZE + 1));
    cells_over.push(Some(Block::End));
    let mut d = debugger(line_program(cells_over), vec![]);
    assert_eq!(d.run(), Err(STORAGE_FAULT));
    assert_eq!(d.get_state().pos, STORAGE_SIZE + 1);
}

#[test]
fn missing_start_fails_first_step() {
    let g = line_program(vec![None, Some(Block::End)]);
    let mut d = debugger(g, vec![]);
    assert_eq!(d.step(), Err(MISSING_START));
    let mut d = debugger(grid(0, 0, vec![]), vec![]);
    assert_eq!(d.run(), Err(MISSING_START));
    let mut out = Vec::new();
    assert_eq!(execute_code(String::new(), &mut out), Err(MISSING_START));
}

#[test]
fn first_start_is_the_entry() {
    let g = line_program(vec![
        None,
        Some(Block::Start(Direction::Right)),
        Some(Block::Start(Direction::Left)),
    ]);
    let d = debugger(g, vec![]);
    let s = d.get_state();
    assert_eq!((s.pos, s.dir), (1, 'R'));
}

#[test]
fn grid_new_checks_cell_count() {
    assert!(Grid::new(2, 2, vec![None; 3]).is_none());
    assert!(Grid::new(2, 2, vec![None; 4]).is_some());
    assert!(Grid::new(usize::MAX, 2, vec![]).is_none());
}

#[test]
fn state_snapshot_reports_symbols() {
    let code = "S<.\n";
    let d = M43Debugger::new(code.to_string(), vec![]).unwrap();
    let s = d.get_state();
    assert_eq!(s.dir, 'L');
    assert_eq!(Direction::Up.symbol(), 'U');
    assert_eq!(Direction::Down.symbol(), 'D');
    assert_eq!(s.get_storage(), &vec![0u8; STORAGE_SIZE]);
}

#[test]
fn fixed_size_grid_runs_like_dynamic_grid() {
    let fixed = m43lang::ConstGrid {
        cells: [
            Some(Block::Start(Direction::Right)),
            Some(Block::SetVal(43)),
            Some(Block::Print),
            Some(Block::End),
        ],
        width: 4,
        height: 1,
    };
    assert_eq!(fixed.get(1), Some(Block::SetVal(43)));
    assert_eq!(fixed.get(4), None);
    let dynamic = fixed.to_grid();
    assert_eq!((dynamic.width(), dynamic.height()), (4, 1));
    let mut a = Vec::new();
    let mut b = Vec::new();
    assert_eq!(fixed.interpret(&mut a), Ok(()));
    assert_eq!(dynamic.interpret(&mut b), Ok(()));
    assert_eq!(a, vec![Output::Number(43)]);
    assert_eq!(a, b);
}

#[test]
fn debugger_from_text_keeps_breakpoint_pairs() {
    let code = "...S>.......E..\n";
    let mut d = M43Debugger::new(code.to_string(), vec![5, 9, 2, 2]).expect("valid text, even list");
    let s = d.get_state();
    assert_eq!((s.pos, s.dir, s.coords), (1, 'R', (1, 0)));
    assert_eq!(d.status(), Status::Running);
    assert_eq!(d.run(), Err(PAUSED));
    assert_eq!(d.get_state().pos, 2);
    assert_eq!(d.run(), Ok(()));
    assert_eq!(d.get_state().pos, 4);
}
