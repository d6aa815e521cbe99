//! Diagonal board coordinates and the four diagonal directions.

use vstd::prelude::*;

verus! {

/// One of the four diagonal rays from a cell.
#[derive(Debug, Clone, Copy, PartialEq, Eq, Structural, Hash)]
pub enum Direction {
    LeftUp,
    RightUp,
    LeftDown,
    RightDown,
}

/// The row step of a direction: up is toward decreasing rows.
pub open spec fn dir_row(d: Direction) -> int {
    match d {
        Direction::LeftUp => -1,
        Direction::RightUp => -1,
        Direction::LeftDown => 1,
        Direction::RightDown => 1,
    }
}

/// The column step of a direction: left is toward decreasing columns.
pub open spec fn dir_col(d: Direction) -> int {
    match d {
        Direction::LeftUp => -1,
        Direction::RightUp => 1,
        Direction::LeftDown => -1,
        Direction::RightDown => 1,
    }
}

/// A cell of the board, in diagonal coordinates. Values are not bounds-checked
/// at construction; validity against a board is a separate predicate.
#[derive(Debug, Clone, Copy, PartialEq, Eq, Structural, Hash)]
pub struct Position {
    pub row: i8,
    pub column: i8,
}

/// The row of the cell `k` steps from `p` along direction `d`.
pub open spec fn ray_row(p: Position, d: Direction, k: int) -> int {
    if dir_row(d) == 1 {
        p.row + k
    } else {
        p.row - k
    }
}

/// The column of the cell `k` steps from `p` along direction `d`.
pub open spec fn ray_col(p: Position, d: Direction, k: int) -> int {
    if dir_col(d) == 1 {
        p.column + k
    } else {
        p.column - k
    }
}

/// The enumeration order of the four directions within one distance step.
pub open spec fn dir_of_index(j: int) -> Direction {
    if j == 0 {
        Direction::LeftUp
    } else if j == 1 {
        Direction::RightUp
    } else if j == 2 {
        Direction::LeftDown
    } else {
        Direction::RightDown
    }
}

impl Position {
    pub fn new(row: i8, column: i8) -> (r: Position)
        ensures
            r.row == row,
            r.column == column,
    {
        Position { row, column }
    }

    /// The two cells diagonally adjacent in the upward direction, at distance
    /// 1: the forward neighbours of a White man.
    pub fn top_diagonal_neighbours(&self) -> (r: Vec<Position>)
        requires
            i8::MIN < self.row,
            i8::MIN < self.column,
            self.column < i8::MAX,
        ensures
            r@.len() == 2,
            r@[0].row as int == self.row - 1,
            r@[0].column as int == self.column - 1,
            r@[1].row as int == self.row - 1,
            r@[1].column as int == self.column + 1,
    {
        let mut v: Vec<Position> = Vec::new();
        v.push(Position { row: self.row - 1, column: self.column - 1 });
        v.push(Position { row: self.row - 1, column: self.column + 1 });
        v
    }

    /// The two cells diagonally adjacent in the downward direction, at
    /// distance 1: the forward neighbours of a Black man.
    pub fn bottom_diagonal_neighbours(&self) -> (r: Vec<Position>)
        requires
            self.row < i8::MAX,
            i8::MIN < self.column,
            self.column < i8::MAX,
        ensures
            r@.len() == 2,
            r@[0].row as int == self.row + 1,
            r@[0].column as int == self.column - 1,
            r@[1].row as int == self.row + 1,
            r@[1].column as int == self.column + 1,
    {
        let mut v: Vec<Position> = Vec::new();
        v.push(Position { row: self.row + 1, column: self.column - 1 });
        v.push(Position { row: self.row + 1, column: self.column + 1 });
        v
    }

    /// Every cell at distance `1..=steps` along each of the four diagonal
    /// rays, tagged with its direction. Cells are enumerated distance-first,
    /// in the direction order of `dir_of_index`.
    pub fn diagonal_neighbours(&self, steps: i8) -> (r: Vec<(Position, Direction)>)
        requires
            0 <= steps < i8::MAX,
            i8::MIN <= self.row - steps,
            self.row + steps <= i8::MAX,
            i8::MIN <= self.column - steps,
            self.column + steps <= i8::MAX,
        ensures
            r@.len() == 4 * steps,
            forall|i: int|
                0 <= i < r@.len() ==> {
                    let k = i / 4 + 1;
                    let d = dir_of_index(i % 4);
                    &&& (#[trigger] r@[i]).1 == d
                    &&& r@[i].0.row as int == ray_row(*self, d, k)
                    &&& r@[i].0.column as int == ray_col(*self, d, k)
                },
    {
        let mut v: Vec<(Position, Direction)> = Vec::new();
        let mut offset: i8 = 1;
        while offset <= steps
            invariant
                1 <= offset <= steps + 1,
                0 <= steps < i8::MAX,
                i8::MIN <= self.row - steps,
                self.row + steps <= i8::MAX,
                i8::MIN <= self.column - steps,
                self.column + steps <= i8::MAX,
                v@.len() == 4 * (offset - 1),
                forall|i: int|
                    0 <= i < v@.len() ==> {
                        let k = i / 4 + 1;
                        let d = dir_of_index(i % 4);
                        &&& (#[trigger] v@[i]).1 == d
                        &&& v@[i].0.row as int == ray_row(*self, d, k)
                        &&& v@[i].0.column as int == ray_col(*self, d, k)
                    },
            decreases steps + 1 - offset,
        {
            v.push(
                (Position { row: self.row - offset, column: self.column - offset },
                Direction::LeftUp),
            );
            v.push(
                (Position { row: self.row - offset, column: self.column + offset },
                Direction::RightUp),
            );
            v.push(
                (Position { row: self.row + offset, column: self.column - offset },
                Direction::LeftDown),
            );
            v.push(
                (Position { row: self.row + offset, column: self.column + offset },
                Direction::RightDown),
            );
            offset = offset + 1;
        }
        v
    }

    /// The single adjacent cell in direction `direction`, at distance 1.
    pub fn next_diagonal(&self, direction: Direction) -> (r: Position)
        requires
            i8::MIN < self.row,
            self.row < i8::MAX,
            i8::MIN < self.column,
            self.column < i8::MAX,
        ensures
            r.row as int == ray_row(*self, direction, 1),
            r.column as int == ray_col(*self, direction, 1),
    {
        match direction {
            Direction::LeftUp => Position { row: self.row - 1, column: self.column - 1 },
            Direction::LeftDown => Position { row: self.row + 1, column: self.column - 1 },
            Direction::RightDown => Position { row: self.row + 1, column: self.column + 1 },
            Direction::RightUp => Position { row: self.row - 1, column: self.column + 1 },
        }
    }
}

} // verus!
