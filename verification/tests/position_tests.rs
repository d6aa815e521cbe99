use checkers::position::{Direction, Position};

#[test]
fn top_neighbours_of_interior_cell() {
    let p = Position { row: 4, column: 3 };
    let n = p.top_diagonal_neighbours();
    assert_eq!(n.len(), 2);
    assert_eq!(n[0], Position { row: 3, column: 2 });
    assert_eq!(n[1], Position { row: 3, column: 4 });
}

#[test]
fn bottom_neighbours_of_interior_cell() {
    let p = Position { row: 4, column: 3 };
    let n = p.bottom_diagonal_neighbours();
    assert_eq!(n.len(), 2);
    assert_eq!(n[0], Position { row: 5, column: 2 });
    assert_eq!(n[1], Position { row: 5, column: 4 });
}

#[test]
fn neighbours_may_leave_the_board() {
    let p = Position { row: 0, column: 0 };
    let n = p.top_diagonal_neighbours();
    assert_eq!(n[0], Position { row: -1, column: -1 });
    assert_eq!(n[1], Position { row: -1, column: 1 });
}

#[test]
fn diagonal_neighbours_enumerates_distance_first() {
    let p = Position { row: 4, column: 4 };
    let n = p.diagonal_neighbours(2);
    assert_eq!(n.len(), 8);
    assert_eq!(n[0], (Position { row: 3, column: 3 }, Direction::LeftUp));
    assert_eq!(n[1], (Position { row: 3, column: 5 }, Direction::RightUp));
    assert_eq!(n[2], (Position { row: 5, column: 3 }, Direction::LeftDown));
    assert_eq!(n[3], (Position { row: 5, column: 5 }, Direction::RightDown));
    assert_eq!(n[4], (Position { row: 2, column: 2 }, Direction::LeftUp));
    assert_eq!(n[7], (Position { row: 6, column: 6 }, Direction::RightDown));
}

#[test]
fn diagonal_neighbours_zero_steps_is_empty() {
    let p = Position { row: 4, column: 4 };
    assert_eq!(p.diagonal_neighbours(0).len(), 0);
}

#[test]
fn next_diagonal_in_each_direction() {
    let p = Position { row: 4, column: 4 };
    assert_eq!(p.next_diagonal(Direction::LeftUp), Position { row: 3, column: 3 });
    assert_eq!(p.next_diagonal(Direction::RightUp), Position { row: 3, column: 5 });
    assert_eq!(p.next_diagonal(Direction::LeftDown), Position { row: 5, column: 3 });
    assert_eq!(p.next_diagonal(Direction::RightDown), Position { row: 5, column: 5 });
}
