use vstd::prelude::*;

verus! {

/// The accumulator's width: every value the machine holds is one byte.
pub type Value = u8;

/// One of the four travel directions of the cursor.
#[derive(Clone, Copy, Debug, PartialEq, Eq, Structural)]
pub enum Direction {
    Up,
    Down,
    Left,
    Right,
}

/// The contents of a non-empty cell.
#[derive(Clone, Copy, Debug, PartialEq, Eq, Structural)]
pub enum Block {
    /// The entry point, and the direction in which the cursor leaves it.
    Start(Direction),
    /// Sets the direction in which the cursor leaves this cell.
    Redirect(Direction),
    /// Stops the program when the cursor lands on it.
    End,
    /// Loads a literal into the accumulator.
    SetVal(Value),
    /// Pushes the accumulator onto the storage stack.
    Store,
    /// Pops two values off the storage stack and loads their sum.
    OpAdd,
    /// Emits the accumulator as a number.
    Print,
    /// Emits the accumulator as a character.
    Display,
}

impl Direction {
    /// The one-letter symbol of the direction, as an inspector shows it.
    pub open spec fn symbol_spec(self) -> char {
        match self {
            Direction::Up => 'U',
            Direction::Down => 'D',
            Direction::Left => 'L',
            Direction::Right => 'R',
        }
    }

    pub fn symbol(&self) -> (r: char)
        ensures
            r == self.symbol_spec(),
    {
        match self {
            Direction::Up => 'U',
            Direction::Down => 'D',
            Direction::Left => 'L',
            Direction::Right => 'R',
        }
    }
}

} // verus!
