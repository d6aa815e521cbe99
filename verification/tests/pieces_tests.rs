use checkers::piece::Piece;
use checkers::position::Position;
use checkers::route::Route;
use checkers::side::Side;

#[test]
fn piece_rank_predicates() {
    assert!(Piece::Man.is_man());
    assert!(!Piece::Man.is_king());
    assert!(Piece::King.is_king());
    assert!(!Piece::King.is_man());
    assert_eq!(Piece::default(), Piece::Man);
}

#[test]
fn side_opposite_swaps() {
    assert_eq!(Side::White.opposite(), Side::Black);
    assert_eq!(Side::Black.opposite(), Side::White);
    assert_eq!(Side::Black.opposite().opposite(), Side::Black);
    assert_eq!(Side::default(), Side::White);
}

#[test]
fn route_position_is_its_destination() {
    let dest = Position { row: 2, column: 3 };
    let movement = Route::Movement(dest);
    assert_eq!(movement.position(), dest);
    let taking = Route::Taking(dest, vec![Position { row: 3, column: 2 }]);
    assert_eq!(taking.position(), dest);
}

#[test]
fn route_clone_copies_captures() {
    let dest = Position { row: 1, column: 2 };
    let taken = vec![Position { row: 4, column: 3 }, Position { row: 2, column: 3 }];
    let taking = Route::Taking(dest, taken.clone());
    match taking.clone() {
        Route::Taking(p, t) => {
            assert_eq!(p, dest);
            assert_eq!(t, taken);
        }
        Route::Movement(_) => panic!("clone changed the route kind"),
    }
}
