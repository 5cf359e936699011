use vstd::prelude::*;
use vstd::arithmetic::div_mod::lemma_fundamental_div_mod_converse;
use crate::block::{Block, Direction};
use crate::grid::{Grid, lemma_index_in_grid};

verus! {

// The text form of a grid: each row is written as three characters per cell
// followed by a newline. A cell is `...` when empty, `S` or `R` and a direction
// arrow (`^`, `v`, `<`, `>`) and a dot for `Start` and `Redirect`, `E..`,
// `W..`, `A..`, `P..` and `D..` for `End`, `Store`, `OpAdd`, `Print` and
// `Display`, and `#` with two lowercase hexadecimal digits for a literal.

pub open spec fn hex_char(n: u8) -> char {
    match n {
        0u8 => '0',
        1u8 => '1',
        2u8 => '2',
        3u8 => '3',
        4u8 => '4',
        5u8 => '5',
        6u8 => '6',
        7u8 => '7',
        8u8 => '8',
        9u8 => '9',
        10u8 => 'a',
        11u8 => 'b',
        12u8 => 'c',
        13u8 => 'd',
        14u8 => 'e',
        _ => 'f',
    }
}

pub open spec fn hex_value(c: char) -> Option<u8> {
    match c {
        '0' => Some(0u8),
        '1' => Some(1u8),
        '2' => Some(2u8),
        '3' => Some(3u8),
        '4' => Some(4u8),
        '5' => Some(5u8),
        '6' => Some(6u8),
        '7' => Some(7u8),
        '8' => Some(8u8),
        '9' => Some(9u8),
        'a' => Some(10u8),
        'b' => Some(11u8),
        'c' => Some(12u8),
        'd' => Some(13u8),
        'e' => Some(14u8),
        'f' => Some(15u8),
        _ => None,
    }
}

pub open spec fn dir_char(d: Direction) -> char {
    match d {
        Direction::Up => '^',
        Direction::Down => 'v',
        Direction::Left => '<',
        Direction::Right => '>',
    }
}

pub open spec fn char_dir(c: char) -> Option<Direction> {
    match c {
        '^' => Some(Direction::Up),
        'v' => Some(Direction::Down),
        '<' => Some(Direction::Left),
        '>' => Some(Direction::Right),
        _ => None,
    }
}

/// The three characters of a cell.
pub open spec fn cell_text(c: Option<Block>) -> Seq<char> {
    match c {
        None => seq!['.', '.', '.'],
        Some(Block::Start(d)) => seq!['S', dir_char(d), '.'],
        Some(Block::Redirect(d)) => seq!['R', dir_char(d), '.'],
        Some(Block::End) => seq!['E', '.', '.'],
        Some(Block::SetVal(v)) => seq!['#', hex_char(v / 16), hex_char(v % 16)],
        Some(Block::Store) => seq!['W', '.', '.'],
        Some(Block::OpAdd) => seq!['A', '.', '.'],
        Some(Block::Print) => seq!['P', '.', '.'],
        Some(Block::Display) => seq!['D', '.', '.'],
    }
}

/// The cell that three characters stand for, or `None` when they stand for none.
pub open spec fn cell_of(a: char, b: char, c: char) -> Option<Option<Block>> {
    if a == '.' && b == '.' && c == '.' {
        Some(None)
    } else if (a == 'S' || a == 'R') && char_dir(b) is Some && c == '.' {
        let d = char_dir(b)->Some_0;
        Some(Some(if a == 'S' { Block::Start(d) } else { Block::Redirect(d) }))
    } else if a == '#' && hex_value(b) is Some && hex_value(c) is Some {
        Some(Some(Block::SetVal((hex_value(b)->Some_0 * 16 + hex_value(c)->Some_0) as u8)))
    } else if b == '.' && c == '.' {
        if a == 'E' {
            Some(Some(Block::End))
        } else if a == 'W' {
            Some(Some(Block::Store))
        } else if a == 'A' {
            Some(Some(Block::OpAdd))
        } else if a == 'P' {
            Some(Some(Block::Print))
        } else if a == 'D' {
            Some(Some(Block::Display))
        } else {
            None
        }
    } else {
        None
    }
}

/// Characters in a row of a grid `w` cells wide, its newline included.
pub open spec fn row_len(w: nat) -> nat {
    3 * w + 1
}

/// Character `k` of the text of `g`.
pub open spec fn text_char(g: &Grid, k: int) -> char {
    let w = g.width_spec();
    let r = row_len(w) as int;
    let c = k % r;
    if c == 3 * w {
        '\n'
    } else {
        cell_text(g.cell((k / r) * w + c / 3))[c % 3]
    }
}

/// The text of a grid.
pub open spec fn grid_text(g: &Grid) -> Seq<char> {
    Seq::new(g.height_spec() * row_len(g.width_spec()), |k: int| text_char(g, k))
}

/// Where the first newline at or after `i` stands in `t`.
pub open spec fn first_newline(t: Seq<char>, i: nat) -> Option<nat>
    decreases t.len() - i,
{
    if i >= t.len() {
        None
    } else if t[i as int] == '\n' {
        Some(i)
    } else {
        first_newline(t, i + 1)
    }
}

/// The cell that text `t` of a grid `w` cells wide holds at linear index `i`.
pub open spec fn cell_at(t: Seq<char>, w: nat, i: int) -> Option<Option<Block>> {
    let k = (i / w as int) * row_len(w) + 3 * (i % w as int);
    cell_of(t[k], t[k + 1], t[k + 2])
}

/// The grids that the parser yields: those with at least one row, and the
/// grids of no column.
pub open spec fn parsable(g: &Grid) -> bool {
    g.height_spec() > 0 || g.width_spec() == 0
}

proof fn lemma_cell_round_trip(c: Option<Block>)
    ensures
        cell_of(cell_text(c)[0], cell_text(c)[1], cell_text(c)[2]) == Some(c),
        cell_text(c)[0] != '\n' && cell_text(c)[1] != '\n' && cell_text(c)[2] != '\n',
{
    if let Some(Block::SetVal(v)) = c {
        let hi = (v / 16) as u8;
        let lo = (v % 16) as u8;
        assert(hex_value(hex_char(hi)) == Some(hi)) by {
            assert(hi < 16);
        }
        assert(hex_value(hex_char(lo)) == Some(lo)) by {
            assert(lo < 16);
        }
    }
}

proof fn lemma_div_mod(k: int, r: int, q: int, c: int)
    requires
        r > 0,
        0 <= c < r,
        k == q * r + c,
    ensures
        k / r == q,
        k % r == c,
{
    lemma_fundamental_div_mod_converse(k, r, q, c);
}

proof fn lemma_first_newline(t: Seq<char>, i: nat, n: nat)
    requires
        i <= n < t.len(),
        t[n as int] == '\n',
        forall|j: int| i <= j < n ==> t[j] != '\n',
    ensures
        first_newline(t, i) == Some(n),
    decreases n - i,
{
    if i < n {
        lemma_first_newline(t, i + 1, n);
    }
}

/// The text of the cell at `(x, y)` stands at `y * row_len + 3 * x`.
proof fn lemma_text_cell(g: &Grid, x: nat, y: nat, j: nat)
    requires
        x < g.width_spec(),
        j < 3,
    ensures
        text_char(g, (y * row_len(g.width_spec()) + 3 * x + j) as int) == cell_text(
            g.cell((y * g.width_spec() + x) as int),
        )[j as int],
{
    let w = g.width_spec();
    let r = row_len(w);
    let k = y * r + 3 * x + j;
    lemma_div_mod(k as int, r as int, y as int, (3 * x + j) as int);
    lemma_div_mod((3 * x + j) as int, 3, x as int, j as int);
}

/// The newline of row `y` stands at `y * row_len + 3 * width`.
proof fn lemma_text_newline(g: &Grid, y: nat)
    ensures
        text_char(g, (y * row_len(g.width_spec()) + 3 * g.width_spec()) as int) == '\n',
{
    let w = g.width_spec();
    lemma_div_mod((y * row_len(w) + 3 * w) as int, row_len(w) as int, y as int, (3 * w) as int);
}

/// How the text of a grid with at least one row is laid out: its first newline
/// ends the first row, it holds whole rows, and each cell reads back.
proof fn lemma_text_layout(g: &Grid)
    requires
        g.wf(),
        g.height_spec() > 0,
    ensures
        first_newline(grid_text(g), 0) == Some(3 * g.width_spec()),
        grid_text(g).len() == g.height_spec() * row_len(g.width_spec()),
        forall|i: int|
            0 <= i < g.width_spec() * g.height_spec() ==> #[trigger] cell_at(
                grid_text(g),
                g.width_spec(),
                i,
            ) == Some(g.cell(i)),
{
    let w = g.width_spec();
    let h = g.height_spec();
    let t = grid_text(g);
    assert(h * row_len(w) >= row_len(w)) by (nonlinear_arith)
        requires
            h > 0,
    ;
    assert forall|j: int| 0 <= j < 3 * w implies t[j] != '\n' by {
        let x = (j / 3) as nat;
        let jj = (j % 3) as nat;
        lemma_div_mod(j, 3, j / 3, j % 3);
        lemma_text_cell(g, x, 0, jj);
        lemma_cell_round_trip(g.cell(x as int));
        assert(0 * row_len(w) + 3 * x + jj == j);
    }
    lemma_text_newline(g, 0);
    assert(0 * row_len(w) + 3 * w == 3 * w);
    lemma_first_newline(t, 0, 3 * w);
    assert forall|i: int| 0 <= i < w * h implies #[trigger] cell_at(t, w, i) == Some(g.cell(i)) by {
        let y = i / w as int;
        let x = i % w as int;
        assert(w > 0) by (nonlinear_arith)
            requires
                0 <= i < w * h,
        ;
        vstd::arithmetic::div_mod::lemma_fundamental_div_mod(i, w as int);
        vstd::arithmetic::div_mod::lemma_mod_pos_bound(i, w as int);
        assert(i == y * w + x) by (nonlinear_arith)
            requires
                i == w * (i / w as int) + i % w as int,
                y == i / w as int,
                x == i % w as int,
        ;
        assert(0 <= y < h) by (nonlinear_arith)
            requires
                i == y * w + x,
                0 <= x < w,
                i < w * h,
                0 <= i,
        ;
        assert(y * row_len(w) + 3 * x + 2 < h * row_len(w)) by (nonlinear_arith)
            requires
                0 <= y < h,
                0 <= x < w,
        ;
        lemma_text_cell(g, x as nat, y as nat, 0);
        lemma_text_cell(g, x as nat, y as nat, 1);
        lemma_text_cell(g, x as nat, y as nat, 2);
        lemma_cell_round_trip(g.cell(i));
    }
}

/// The text of a grid that the parser yields determines it: two such grids
/// with the same text have the same dimensions and the same cells.
pub proof fn lemma_round_trip(g1: &Grid, g2: &Grid)
    requires
        g1.wf(),
        g2.wf(),
        parsable(g1),
        parsable(g2),
        grid_text(g1) == grid_text(g2),
    ensures
        g1.width_spec() == g2.width_spec(),
        g1.height_spec() == g2.height_spec(),
        g1.cells_spec() == g2.cells_spec(),
{
    let t = grid_text(g1);
    if g1.height_spec() > 0 && g2.height_spec() > 0 {
        lemma_text_layout(g1);
        lemma_text_layout(g2);
        let w = g1.width_spec();
        let r = row_len(w) as int;
        lemma_div_mod(t.len() as int, r, g1.height_spec() as int, 0);
        lemma_div_mod(t.len() as int, r, g2.height_spec() as int, 0);
        assert forall|i: int| 0 <= i < g1.cells_spec().len() implies g1.cells_spec()[i]
            == g2.cells_spec()[i] by {
            assert(cell_at(t, w, i) == Some(g1.cell(i)));
            assert(cell_at(t, w, i) == Some(g2.cell(i)));
        }
        assert(g1.cells_spec() =~= g2.cells_spec());
    } else {
        assert(grid_text(g1).len() == grid_text(g2).len());
        assert(g1.height_spec() * row_len(g1.width_spec()) == 0 || g2.height_spec() * row_len(
            g2.width_spec(),
        ) == 0);
        assert(g1.height_spec() == 0 && g2.height_spec() == 0) by (nonlinear_arith)
            requires
                g1.height_spec() * row_len(g1.width_spec()) == g2.height_spec() * row_len(
                    g2.width_spec(),
                ),
                g1.height_spec() * row_len(g1.width_spec()) == 0 || g2.height_spec() * row_len(
                    g2.width_spec(),
                ) == 0,
                row_len(g1.width_spec()) > 0,
                row_len(g2.width_spec()) > 0,
        ;
        assert(g1.cells_spec().len() == 0 && g2.cells_spec().len() == 0);
        assert(g1.cells_spec() =~= g2.cells_spec());
    }
}

/// A grid's text, with at least one character, shows its shape and cells.
proof fn lemma_text_shape(g: &Grid, t: Seq<char>)
    requires
        g.wf(),
        grid_text(g) == t,
        t.len() > 0,
    ensures
        g.height_spec() > 0,
        first_newline(t, 0) == Some(3 * g.width_spec()),
        t.len() == g.height_spec() * row_len(g.width_spec()),
        forall|i: int|
            0 <= i < g.width_spec() * g.height_spec() ==> #[trigger] cell_at(t, g.width_spec(), i)
                == Some(g.cell(i)),
{
    if g.height_spec() == 0 {
        assert(g.height_spec() * row_len(g.width_spec()) == 0);
    }
    lemma_text_layout(g);
}

proof fn lemma_no_newline(t: Seq<char>, i: nat)
    requires
        forall|j: int| i <= j < t.len() ==> t[j] != '\n',
    ensures
        first_newline(t, i) is None,
    decreases t.len() - i,
{
    if i < t.len() {
        lemma_no_newline(t, i + 1);
    }
}

fn hex_char_exec(n: u8) -> (c: char)
    ensures
        c == hex_char(n),
{
    match n {
            0u8 => '0',
            1u8 => '1',
            2u8 => '2',
            3u8 => '3',
            4u8 => '4',
            5u8 => '5',
            6u8 => '6',
            7u8 => '7',
            8u8 => '8',
            9u8 => '9',
            10u8 => 'a',
            11u8 => 'b',
            12u8 => 'c',
            13u8 => 'd',
            14u8 => 'e',
            _ => 'f',
    }
}

fn hex_value_exec(c: char) -> (r: Option<u8>)
    ensures
        r == hex_value(c),
{
    match c {
            '0' => Some(0u8),
            '1' => Some(1u8),
            '2' => Some(2u8),
            '3' => Some(3u8),
            '4' => Some(4u8),
            '5' => Some(5u8),
            '6' => Some(6u8),
            '7' => Some(7u8),
            '8' => Some(8u8),
            '9' => Some(9u8),
            'a' => Some(10u8),
            'b' => Some(11u8),
            'c' => Some(12u8),
            'd' => Some(13u8),
            'e' => Some(14u8),
            'f' => Some(15u8),
            _ => None,
    }
}

fn dir_char_exec(d: Direction) -> (c: char)
    ensures
        c == dir_char(d),
{
    match d {
        Direction::Up => '^',
        Direction::Down => 'v',
        Direction::Left => '<',
        Direction::Right => '>',
    }
}

fn char_dir_exec(c: char) -> (r: Option<Direction>)
    ensures
        r == char_dir(c),
{
    match c {
        '^' => Some(Direction::Up),
        'v' => Some(Direction::Down),
        '<' => Some(Direction::Left),
        '>' => Some(Direction::Right),
        _ => None,
    }
}

/// The three characters of a cell.
fn cell_chars(c: Option<Block>) -> (r: (char, char, char))
    ensures
        r.0 == cell_text(c)[0],
        r.1 == cell_text(c)[1],
        r.2 == cell_text(c)[2],
{
    match c {
        None => ('.', '.', '.'),
        Some(Block::Start(d)) => ('S', dir_char_exec(d), '.'),
        Some(Block::Redirect(d)) => ('R', dir_char_exec(d), '.'),
        Some(Block::End) => ('E', '.', '.'),
        Some(Block::SetVal(v)) => ('#', hex_char_exec(v / 16), hex_char_exec(v % 16)),
        Some(Block::Store) => ('W', '.', '.'),
        Some(Block::OpAdd) => ('A', '.', '.'),
        Some(Block::Print) => ('P', '.', '.'),
        Some(Block::Display) => ('D', '.', '.'),
    }
}

/// The cell that three characters stand for.
fn cell_of_exec(a: char, b: char, c: char) -> (r: Option<Option<Block>>)
    ensures
        r == cell_of(a, b, c),
{
    if a == '.' && b == '.' && c == '.' {
        return Some(None);
    }
    if (a == 'S' || a == 'R') && c == '.' {
        if let Some(d) = char_dir_exec(b) {
            return Some(Some(if a == 'S' { Block::Start(d) } else { Block::Redirect(d) }));
        }
    }
    if a == '#' {
        if let (Some(hi), Some(lo)) = (hex_value_exec(b), hex_value_exec(c)) {
            return Some(Some(Block::SetVal(hi * 16 + lo)));
        }
    }
    if b == '.' && c == '.' {
        if a == 'E' {
            Some(Some(Block::End))
        } else if a == 'W' {
            Some(Some(Block::Store))
        } else if a == 'A' {
            Some(Some(Block::OpAdd))
        } else if a == 'P' {
            Some(Some(Block::Print))
        } else if a == 'D' {
            Some(Some(Block::Display))
        } else {
            None
        }
    } else {
        None
    }
}

/// The text of a grid.
pub fn unparse(g: &Grid) -> (r: Vec<char>)
    requires
        g.wf(),
    ensures
        r@ == grid_text(g),
{
    let w = g.width();
    let h = g.height();
    let mut out: Vec<char> = Vec::new();
    let mut y: usize = 0;
    while y < h
        invariant
            g.wf(),
            w == g.width_spec(),
            h == g.height_spec(),
            y <= h,
            out@.len() == y * row_len(w as nat),
            forall|j: int| 0 <= j < out@.len() ==> out@[j] == text_char(g, j),
        decreases h - y,
    {
        let mut x: usize = 0;
        while x < w
            invariant
                g.wf(),
                w == g.width_spec(),
                h == g.height_spec(),
                y < h,
                x <= w,
                out@.len() == y * row_len(w as nat) + 3 * x,
                forall|j: int| 0 <= j < out@.len() ==> out@[j] == text_char(g, j),
            decreases w - x,
        {
            let cell = g.get_at(x, y);
            let (a, b, c) = cell_chars(cell);
            proof {
                lemma_text_cell(g, x as nat, y as nat, 0);
                lemma_text_cell(g, x as nat, y as nat, 1);
                lemma_text_cell(g, x as nat, y as nat, 2);
            }
            out.push(a);
            out.push(b);
            out.push(c);
            x = x + 1;
        }
        proof {
            lemma_text_newline(g, y as nat);
        }
        out.push('\n');
        proof {
            assert((y + 1) * row_len(w as nat) == y * row_len(w as nat) + 3 * w + 1) by (nonlinear_arith);
        }
        y = y + 1;
    }
    assert(out@ =~= grid_text(g));
    out
}

fn chars_equal(a: &Vec<char>, b: &Vec<char>) -> (r: bool)
    ensures
        r == (a@ == b@),
{
    if a.len() != b.len() {
        return false;
    }
    let mut i: usize = 0;
    while i < a.len()
        invariant
            a@.len() == b@.len(),
            i <= a@.len(),
            forall|j: int| 0 <= j < i ==> a@[j] == b@[j],
        decreases a@.len() - i,
    {
        if a[i] != b[i] {
            return false;
        }
        i = i + 1;
    }
    assert(a@ =~= b@);
    true
}

/// The grid whose text is `t`, or `None` when `t` is the text of no grid.
pub fn parse(t: &Vec<char>) -> (r: Option<Grid>)
    ensures
        r matches Some(g) ==> g.wf() && parsable(&g) && grid_text(&g) == t@,
        r is None <==> forall|g: Grid| g.wf() ==> #[trigger] grid_text(&g) != t@,
{
    let n = t.len();
    if n == 0 {
        let empty = Grid::new(0, 0, Vec::new());
        proof {
            if empty is Some {
                assert(empty->Some_0.height_spec() == 0);
                assert(grid_text(&empty->Some_0).len() == 0);
                assert(grid_text(&empty->Some_0) =~= t@);
            }
        }
        return empty;
    }
    let mut l: usize = 0;
    while l < n && t[l] != '\n'
        invariant
            n == t@.len(),
            l <= n,
            forall|j: int| 0 <= j < l ==> t@[j] != '\n',
        decreases n - l,
    {
        l = l + 1;
    }
    if l == n {
        proof {
            lemma_no_newline(t@, 0);
            assert forall|g: Grid| g.wf() implies #[trigger] grid_text(&g) != t@ by {
                if grid_text(&g) == t@ {
                    lemma_text_shape(&g, t@);
                }
            }
        }
        return None;
    }
    proof {
        lemma_first_newline(t@, 0, l as nat);
    }
    if l % 3 != 0 {
        proof {
            assert forall|g: Grid| g.wf() implies #[trigger] grid_text(&g) != t@ by {
                if grid_text(&g) == t@ {
                    lemma_text_shape(&g, t@);
                }
            }
        }
        return None;
    }
    let w = l / 3;
    let r = l + 1;
    assert(r == row_len(w as nat));
    if n % r != 0 {
        proof {
            assert forall|g: Grid| g.wf() implies #[trigger] grid_text(&g) != t@ by {
                if grid_text(&g) == t@ {
                    lemma_text_shape(&g, t@);
                    lemma_div_mod(n as int, r as int, g.height_spec() as int, 0);
                }
            }
        }
        return None;
    }
    let h = n / r;
    proof {
        vstd::arithmetic::div_mod::lemma_fundamental_div_mod(n as int, r as int);
        assert(n == h * r) by (nonlinear_arith)
            requires
                n == r * (n as int / r as int),
                h == n as int / r as int,
        ;
        assert(3 * w == l);
    }
    let mut cells: Vec<Option<Block>> = Vec::new();
    let mut y: usize = 0;
    while y < h
        invariant
            n == t@.len(),
            n == h * r,
            r == row_len(w as nat),
            first_newline(t@, 0) == Some(3 * w as nat),
            y <= h,
            cells@.len() == y * w,
            forall|i: int| 0 <= i < cells@.len() ==> Some(cells@[i]) == #[trigger] cell_at(t@, w as nat, i),
        decreases h - y,
    {
        proof {
            assert(y * r + r <= n) by (nonlinear_arith)
                requires
                    y < h,
                    n == h * r,
            ;
        }
        let mut x: usize = 0;
        let mut k: usize = y * r;
        while x < w
            invariant
                n == t@.len(),
                n == h * r,
                r == row_len(w as nat),
                first_newline(t@, 0) == Some(3 * w as nat),
                y < h,
                y * r + r <= n,
                x <= w,
                k == y * r + 3 * x,
                cells@.len() == y * w + x,
                forall|i: int| 0 <= i < cells@.len() ==> Some(cells@[i]) == #[trigger] cell_at(t@, w as nat, i),
            decreases w - x,
        {
            let i = cells.len();
            proof {
                lemma_div_mod(i as int, w as int, y as int, x as int);
                lemma_index_in_grid(x as nat, y as nat, w as nat, h as nat);
            }
            match cell_of_exec(t[k], t[k + 1], t[k + 2]) {
                Some(c) => {
                    cells.push(c);
                },
                None => {
                    proof {
                        assert(cell_at(t@, w as nat, i as int) is None);
                        assert forall|g: Grid| g.wf() implies #[trigger] grid_text(&g) != t@ by {
                            if grid_text(&g) == t@ {
                                lemma_text_shape(&g, t@);
                                lemma_div_mod(n as int, r as int, g.height_spec() as int, 0);
                                lemma_div_mod(n as int, r as int, h as int, 0);
                                assert(g.width_spec() == w);
                                assert(g.height_spec() == h);
                                assert(i < g.width_spec() * g.height_spec());
                                assert(cell_at(t@, w as nat, i as int) == Some(g.cell(i as int)));
                            }
                        }
                    }
                    return None;
                },
            }
            k = k + 3;
            x = x + 1;
        }
        proof {
            assert((y + 1) * w == y * w + w) by (nonlinear_arith);
        }
        y = y + 1;
    }
    proof {
        assert(h * w == w * h) by (nonlinear_arith);
    }
    let candidate = Grid::new(w, h, cells);
    match candidate {
        None => None,
        Some(g) => {
            let text = unparse(&g);
            if chars_equal(&text, t) {
                proof {
                    assert(h > 0) by (nonlinear_arith)
                        requires
                            n == h * r,
                            n > 0,
                    ;
                }
                Some(g)
            } else {
                proof {
                    assert forall|g2: Grid| g2.wf() implies #[trigger] grid_text(&g2) != t@ by {
                        if grid_text(&g2) == t@ {
                            lemma_text_shape(&g2, t@);
                            lemma_div_mod(n as int, r as int, g2.height_spec() as int, 0);
                            assert forall|i: int| 0 <= i < w * h implies g2.cell(i) == g.cell(i) by {
                                assert(cell_at(t@, w as nat, i) == Some(g2.cell(i)));
                            }
                            assert(grid_text(&g2) =~= grid_text(&g));
                        }
                    }
                }
                None
            }
        },
    }
}

} // verus!
