use checkers::game_data::GameData;
use checkers::piece::Piece;
use checkers::position::Position;
use checkers::route::Route;
use checkers::side::Side;

fn pos(row: i8, column: i8) -> Position {
    Position { row, column }
}

fn has_movement(routes: &Vec<Route>, dest: Position) -> bool {
    routes.iter().any(|r| matches!(r, Route::Movement(p) if *p == dest))
}

fn has_taking(routes: &Vec<Route>, dest: Position, taken: &[Position]) -> bool {
    routes.iter().any(|r| match r {
        Route::Taking(p, t) => *p == dest && t.as_slice() == taken,
        Route::Movement(_) => false,
    })
}

fn count_pieces(gd: &GameData, side: Side) -> usize {
    gd.pieces(side).len()
}

#[test]
fn starting_layout_is_standard() {
    let gd = GameData::default();
    assert_eq!(gd.current_move(), Side::White);
    assert_eq!(count_pieces(&gd, Side::White), 12);
    assert_eq!(count_pieces(&gd, Side::Black), 12);
    // dark cells of the three rows nearest each edge
    assert_eq!(gd.get_piece(Side::White, pos(5, 0)), Some(Piece::Man));
    assert_eq!(gd.get_piece(Side::White, pos(7, 0)), Some(Piece::Man));
    assert_eq!(gd.get_piece(Side::White, pos(6, 1)), Some(Piece::Man));
    assert_eq!(gd.get_piece(Side::Black, pos(0, 1)), Some(Piece::Man));
    assert_eq!(gd.get_piece(Side::Black, pos(2, 1)), Some(Piece::Man));
    // light cells and middle rows are empty
    assert_eq!(gd.get_piece(Side::White, pos(5, 1)), None);
    assert_eq!(gd.get_piece(Side::Black, pos(3, 0)), None);
    assert!(gd.is_cell_empty(pos(4, 1)));
    assert!(!gd.is_game_ended());
}

#[test]
fn board_dimensions() {
    let gd = GameData::default();
    assert_eq!(gd.board_cells(), (8, 8));
    assert!(gd.is_inside_board(pos(0, 0)));
    assert!(gd.is_inside_board(pos(7, 7)));
    assert!(!gd.is_inside_board(pos(-1, 3)));
    assert!(!gd.is_inside_board(pos(8, 3)));
    let cells = gd.board_cell_coordinates();
    assert_eq!(cells.len(), 64);
    assert_eq!(cells[0], (0, 0));
    assert_eq!(cells[63], (7, 7));
}

#[test]
fn man_moves_one_forward_step() {
    let gd = GameData::default();
    let routes = gd.get_movement_routes(pos(5, 2), Piece::Man, Side::White);
    assert_eq!(routes.len(), 2);
    assert!(has_movement(&routes, pos(4, 1)));
    assert!(has_movement(&routes, pos(4, 3)));
    // black men move toward increasing rows
    let routes = gd.get_movement_routes(pos(2, 1), Piece::Man, Side::Black);
    assert_eq!(routes.len(), 2);
    assert!(has_movement(&routes, pos(3, 0)));
    assert!(has_movement(&routes, pos(3, 2)));
}

#[test]
fn man_cannot_move_onto_occupied_or_off_board() {
    let mut gd = GameData::empty(Side::White);
    gd.place_piece(Side::White, pos(5, 0), Piece::Man);
    gd.place_piece(Side::Black, pos(4, 1), Piece::Man);
    let routes = gd.get_movement_routes(pos(5, 0), Piece::Man, Side::White);
    // (4, -1) is off the board and (4, 1) is occupied
    assert_eq!(routes.len(), 0);
}

#[test]
fn king_slides_until_blocked() {
    // a king at (4,4), the LeftUp diagonal empty through (0,0)
    let mut gd = GameData::empty(Side::White);
    gd.place_piece(Side::White, pos(4, 4), Piece::King);
    let routes = gd.get_movement_routes(pos(4, 4), Piece::King, Side::White);
    assert!(has_movement(&routes, pos(3, 3)));
    assert!(has_movement(&routes, pos(2, 2)));
    assert!(has_movement(&routes, pos(1, 1)));
    assert!(has_movement(&routes, pos(0, 0)));
    // all four rays are open: 4 + 3 + 3 + 3 destinations
    assert_eq!(routes.len(), 13);

    // with a piece on (0,0), neither (0,0) nor anything past it is offered
    let mut gd2 = GameData::empty(Side::White);
    gd2.place_piece(Side::White, pos(4, 4), Piece::King);
    gd2.place_piece(Side::Black, pos(0, 0), Piece::Man);
    let routes2 = gd2.get_movement_routes(pos(4, 4), Piece::King, Side::White);
    assert!(has_movement(&routes2, pos(1, 1)));
    assert!(!has_movement(&routes2, pos(0, 0)));
    assert_eq!(routes2.len(), 12);
}

#[test]
fn king_stops_before_nearer_blocker() {
    let mut gd = GameData::empty(Side::White);
    gd.place_piece(Side::White, pos(4, 4), Piece::King);
    gd.place_piece(Side::White, pos(2, 2), Piece::Man);
    let routes = gd.get_movement_routes(pos(4, 4), Piece::King, Side::White);
    assert!(has_movement(&routes, pos(3, 3)));
    assert!(!has_movement(&routes, pos(2, 2)));
    assert!(!has_movement(&routes, pos(1, 1)));
    assert!(!has_movement(&routes, pos(0, 0)));
}

#[test]
fn single_capture_route() {
    // starting board with a White man advanced to (4,1), a Black man on
    // (3,2), and (2,3) freed
    let mut gd = GameData::empty(Side::White);
    gd.place_piece(Side::White, pos(4, 1), Piece::Man);
    gd.place_piece(Side::Black, pos(3, 2), Piece::Man);
    let routes = gd.get_available_routes(pos(4, 1), Piece::Man);
    assert!(has_taking(&routes, pos(2, 3), &[pos(3, 2)]));
    assert!(!has_movement(&routes, pos(3, 2)));
    // (3,0) is empty and on-board, so the plain move there is offered
    assert!(has_movement(&routes, pos(3, 0)));
}

#[test]
fn capture_chain_offers_both_stops() {
    // a first capture from (5,2) over (4,3), then a second from the landing
    // square (3,4) over (2,3)
    let mut gd = GameData::empty(Side::White);
    gd.place_piece(Side::White, pos(5, 2), Piece::Man);
    gd.place_piece(Side::Black, pos(4, 3), Piece::Man);
    gd.place_piece(Side::Black, pos(2, 3), Piece::Man);
    let routes = gd.get_available_routes(pos(5, 2), Piece::Man);
    assert!(has_taking(&routes, pos(3, 4), &[pos(4, 3)]));
    assert!(has_taking(&routes, pos(1, 2), &[pos(4, 3), pos(2, 3)]));
}

#[test]
fn captured_piece_is_not_taken_twice() {
    // the piece just captured cannot be captured again in the same turn
    let mut gd = GameData::empty(Side::White);
    gd.place_piece(Side::White, pos(5, 2), Piece::Man);
    gd.place_piece(Side::Black, pos(4, 3), Piece::Man);
    let routes = gd.get_available_routes(pos(5, 2), Piece::Man);
    // only the single capture exists; its chain has length one
    assert!(has_taking(&routes, pos(3, 4), &[pos(4, 3)]));
    let takings: Vec<_> = routes
        .iter()
        .filter(|r| matches!(r, Route::Taking(_, _)))
        .collect();
    assert_eq!(takings.len(), 1);
}

#[test]
fn king_captures_first_piece_on_ray() {
    let mut gd = GameData::empty(Side::White);
    gd.place_piece(Side::White, pos(7, 0), Piece::King);
    gd.place_piece(Side::Black, pos(4, 3), Piece::Man);
    let routes = gd.get_taking_routes(pos(7, 0), Piece::King, Side::White);
    assert!(has_taking(&routes, pos(3, 4), &[pos(4, 3)]));
    assert_eq!(routes.len(), 1);
}

#[test]
fn king_cannot_capture_shielded_piece() {
    let mut gd = GameData::empty(Side::White);
    gd.place_piece(Side::White, pos(7, 0), Piece::King);
    gd.place_piece(Side::Black, pos(5, 2), Piece::Man);
    gd.place_piece(Side::Black, pos(4, 3), Piece::Man);
    // the landing square behind (5,2) is occupied by (4,3): no capture
    let routes = gd.get_taking_routes(pos(7, 0), Piece::King, Side::White);
    assert_eq!(routes.len(), 0);
}

#[test]
fn route_positions_and_lookup() {
    let mut gd = GameData::empty(Side::White);
    gd.place_piece(Side::White, pos(4, 1), Piece::Man);
    gd.place_piece(Side::Black, pos(3, 2), Piece::Man);
    let routes = gd.get_available_routes(pos(4, 1), Piece::Man);
    let hit = gd.get_route_containing_position(&routes, pos(2, 3));
    match hit {
        Some(Route::Taking(p, taken)) => {
            assert_eq!(p, pos(2, 3));
            assert_eq!(taken, vec![pos(3, 2)]);
        }
        _ => panic!("expected the capture route to (2,3)"),
    }
    assert!(gd.get_route_containing_position(&routes, pos(7, 7)).is_none());
}

#[test]
fn move_piece_relocates() {
    let mut gd = GameData::default();
    gd.move_piece(Side::White, pos(5, 2), pos(4, 3));
    assert_eq!(gd.get_piece(Side::White, pos(5, 2)), None);
    assert_eq!(gd.get_piece(Side::White, pos(4, 3)), Some(Piece::Man));
}

#[test]
fn remove_pieces_deletes_given_cells() {
    let mut gd = GameData::default();
    gd.remove_pieces(&vec![pos(0, 1), pos(0, 3)], Side::Black);
    assert_eq!(gd.get_piece(Side::Black, pos(0, 1)), None);
    assert_eq!(gd.get_piece(Side::Black, pos(0, 3)), None);
    assert_eq!(count_pieces(&gd, Side::Black), 10);
    // removing an empty cell is a no-op
    gd.remove_pieces(&vec![pos(4, 1)], Side::Black);
    assert_eq!(count_pieces(&gd, Side::Black), 10);
}

#[test]
fn pass_the_move_alternates() {
    let mut gd = GameData::default();
    assert_eq!(gd.current_move(), Side::White);
    gd.pass_the_move();
    assert_eq!(gd.current_move(), Side::Black);
    gd.pass_the_move();
    assert_eq!(gd.current_move(), Side::White);
}

#[test]
fn promotion_condition_on_home_rows() {
    let mut gd = GameData::empty(Side::White);
    gd.place_piece(Side::White, pos(0, 1), Piece::Man);
    gd.place_piece(Side::Black, pos(7, 2), Piece::Man);
    gd.place_piece(Side::White, pos(4, 3), Piece::Man);
    assert!(gd.is_turning_to_king_condition_satisfied(Side::White, pos(0, 1)));
    assert!(gd.is_turning_to_king_condition_satisfied(Side::Black, pos(7, 2)));
    assert!(!gd.is_turning_to_king_condition_satisfied(Side::White, pos(4, 3)));
}

#[test]
fn promotion_is_idempotent() {
    let mut gd = GameData::empty(Side::White);
    gd.place_piece(Side::White, pos(0, 1), Piece::King);
    // a king is never due promotion
    assert!(!gd.is_turning_to_king_condition_satisfied(Side::White, pos(0, 1)));
    // promoting it anyway changes nothing
    gd.turn_man_to_king(Side::White, pos(0, 1));
    assert_eq!(gd.get_piece(Side::White, pos(0, 1)), Some(Piece::King));
    assert_eq!(count_pieces(&gd, Side::White), 1);
}

#[test]
fn turn_man_to_king_promotes() {
    let mut gd = GameData::empty(Side::White);
    gd.place_piece(Side::White, pos(0, 1), Piece::Man);
    gd.turn_man_to_king(Side::White, pos(0, 1));
    assert_eq!(gd.get_piece(Side::White, pos(0, 1)), Some(Piece::King));
    assert!(gd.get_piece(Side::White, pos(0, 1)).unwrap().is_king());
}

#[test]
fn apply_move_passes_turn_without_promotion() {
    let mut gd = GameData::default();
    gd.apply_move_piece(Side::White, pos(5, 2), pos(4, 3));
    assert_eq!(gd.current_move(), Side::Black);
}

#[test]
fn apply_move_promotes_and_keeps_turn() {
    let mut gd = GameData::empty(Side::White);
    gd.place_piece(Side::White, pos(1, 2), Piece::Man);
    gd.apply_move_piece(Side::White, pos(1, 2), pos(0, 1));
    assert_eq!(gd.get_piece(Side::White, pos(0, 1)), Some(Piece::King));
    // after a promotion the same side keeps the move
    assert_eq!(gd.current_move(), Side::White);
}

#[test]
fn apply_take_removes_and_reports_end() {
    let mut gd = GameData::empty(Side::White);
    gd.place_piece(Side::White, pos(4, 1), Piece::Man);
    gd.place_piece(Side::Black, pos(3, 2), Piece::Man);
    let ended = gd.apply_take_pieces(Side::White, pos(4, 1), pos(2, 3), &vec![pos(3, 2)]);
    assert!(ended);
    assert!(gd.is_game_ended());
    assert_eq!(gd.get_piece(Side::Black, pos(3, 2)), None);
    assert_eq!(gd.get_piece(Side::White, pos(2, 3)), Some(Piece::Man));
    assert_eq!(gd.current_move(), Side::Black);
}

#[test]
fn restart_resets_to_standard_layout() {
    // play until one side is empty, then the application restarts the game
    let mut gd = GameData::empty(Side::White);
    gd.place_piece(Side::White, pos(4, 1), Piece::Man);
    gd.place_piece(Side::Black, pos(3, 2), Piece::Man);
    let ended = gd.apply_take_pieces(Side::White, pos(4, 1), pos(2, 3), &vec![pos(3, 2)]);
    assert!(ended);
    let gd = GameData::default();
    assert_eq!(gd.current_move(), Side::White);
    assert_eq!(count_pieces(&gd, Side::White), 12);
    assert_eq!(count_pieces(&gd, Side::Black), 12);
    assert_eq!(gd.get_piece(Side::White, pos(5, 0)), Some(Piece::Man));
    assert_eq!(gd.get_piece(Side::Black, pos(2, 7)), Some(Piece::Man));
}

#[test]
fn clone_is_deep_equal() {
    let gd = GameData::default();
    let copy = gd.clone();
    assert_eq!(copy.current_move(), gd.current_move());
    for row in 0..8 {
        for column in 0..8 {
            let p = pos(row, column);
            assert_eq!(copy.get_piece(Side::White, p), gd.get_piece(Side::White, p));
            assert_eq!(copy.get_piece(Side::Black, p), gd.get_piece(Side::Black, p));
        }
    }
}

#[test]
fn sides_never_share_a_cell() {
    let mut gd = GameData::default();
    gd.move_piece(Side::White, pos(5, 2), pos(4, 3));
    gd.move_piece(Side::Black, pos(2, 1), pos(3, 2));
    for row in 0..8 {
        for column in 0..8 {
            let p = pos(row, column);
            assert!(
                !(gd.get_piece(Side::White, p).is_some()
                    && gd.get_piece(Side::Black, p).is_some())
            );
        }
    }
}

#[test]
fn contains_checks() {
    let gd = GameData::default();
    assert!(gd.contains_ally_piece(pos(5, 2), Side::White));
    assert!(!gd.contains_ally_piece(pos(5, 2), Side::Black));
    assert!(gd.is_cell_empty(pos(3, 2)));
    assert!(!gd.is_cell_empty(pos(5, 2)));
}

#[test]
fn empty_board_is_ended_and_quiet() {
    let gd = GameData::empty(Side::White);
    assert!(gd.is_game_ended());
    assert_eq!(count_pieces(&gd, Side::White), 0);
    assert_eq!(count_pieces(&gd, Side::Black), 0);
    assert!(gd.is_cell_empty(pos(4, 3)));
}

#[test]
fn placing_on_an_occupied_cell_replaces() {
    let mut gd = GameData::empty(Side::White);
    gd.place_piece(Side::White, pos(4, 3), Piece::Man);
    gd.place_piece(Side::White, pos(4, 3), Piece::King);
    assert_eq!(gd.get_piece(Side::White, pos(4, 3)), Some(Piece::King));
    assert_eq!(count_pieces(&gd, Side::White), 1);
}

#[test]
fn king_travels_the_whole_diagonal() {
    let mut gd = GameData::empty(Side::White);
    gd.place_piece(Side::White, pos(7, 0), Piece::King);
    let routes = gd.get_movement_routes(pos(7, 0), Piece::King, Side::White);
    // the full RightUp diagonal, seven cells
    assert_eq!(routes.len(), 7);
    assert!(has_movement(&routes, pos(6, 1)));
    assert!(has_movement(&routes, pos(0, 7)));
}
