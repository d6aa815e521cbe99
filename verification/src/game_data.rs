//! The board state of a checkers game and its rule engine.
//!
//! The mathematical model of a board is a [`BoardModel`]: one finite map of
//! pieces per side and whose turn it is. Every key of either map lies on a
//! dark cell of the 8x8 board, and no cell is held by both sides at once.

use vstd::prelude::*;

use crate::piece::Piece;
use crate::piece_map::PieceMap;
use crate::position::{ray_col, ray_row, Direction, Position};
use crate::route::{
    among, lemma_among_frame, lemma_among_is_contains, lemma_among_split,
    lemma_route_views_contains, lemma_route_views_index, route_views, Route, RouteModel,
};
use crate::side::Side;

verus! {

/// Rows and columns of the standard board.
pub const BOARD_SIZE: i8 = 8;

/// Whether coordinates `(r, c)` lie on the board.
pub open spec fn in_board_rc(r: int, c: int) -> bool {
    0 <= r < 8 && 0 <= c < 8
}

/// Whether cell `p` lies on the board.
pub open spec fn spec_in_board(p: Position) -> bool {
    in_board_rc(p.row as int, p.column as int)
}

/// Only dark cells (odd coordinate sum) ever hold pieces.
pub open spec fn dark_cell(p: Position) -> bool {
    (p.row + p.column) % 2 == 1
}

/// The cell at coordinates `(r, c)`.
pub open spec fn pos_rc(r: int, c: int) -> Position {
    Position { row: r as i8, column: c as i8 }
}

/// The abstract value of a board: the two piece maps and whose turn it is.
#[verifier::ext_equal]
pub struct BoardModel {
    pub white: Map<Position, Piece>,
    pub black: Map<Position, Piece>,
    pub turn: Side,
}

impl BoardModel {
    /// The piece map of one side.
    pub open spec fn pieces_of(self, side: Side) -> Map<Position, Piece> {
        match side {
            Side::White => self.white,
            Side::Black => self.black,
        }
    }

    /// The board with one side's piece map replaced.
    pub open spec fn set_pieces(self, side: Side, m: Map<Position, Piece>) -> BoardModel {
        match side {
            Side::White => BoardModel { white: m, ..self },
            Side::Black => BoardModel { black: m, ..self },
        }
    }

    /// Whether any piece stands on cell `p`.
    pub open spec fn occupied(self, p: Position) -> bool {
        self.white.contains_key(p) || self.black.contains_key(p)
    }

    /// Whether a piece stands at coordinates `(r, c)`. Off-board coordinates
    /// never hold a piece.
    pub open spec fn occ_rc(self, r: int, c: int) -> bool {
        in_board_rc(r, c) && self.occupied(pos_rc(r, c))
    }

    /// Every piece stands on a dark on-board cell, the two sides are
    /// disjoint, and both maps are finite.
    pub open spec fn wf(self) -> bool {
        &&& self.white.dom().finite()
        &&& self.black.dom().finite()
        &&& forall|p: Position|
            #[trigger] self.white.contains_key(p) ==> spec_in_board(p) && dark_cell(p)
        &&& forall|p: Position|
            #[trigger] self.black.contains_key(p) ==> spec_in_board(p) && dark_cell(p)
        &&& forall|p: Position|
            !(#[trigger] self.white.contains_key(p) && self.black.contains_key(p))
    }
}

/// The home row of a side: the edge its men start nearest to.
pub open spec fn home_row(side: Side) -> int {
    match side {
        Side::Black => 0,
        Side::White => 7,
    }
}

/// A man of `side` standing on `p` must be promoted: it has reached the
/// opposing side's home row.
pub open spec fn spec_promotion_due(v: BoardModel, side: Side, p: Position) -> bool {
    &&& v.pieces_of(side)[p] == Piece::Man
    &&& p.row as int == home_row(side.spec_opposite())
}

/// Whether `p` is one of the cells a side's men start the game on.
pub open spec fn initial_cell(side: Side, p: Position) -> bool {
    &&& spec_in_board(p)
    &&& dark_cell(p)
    &&& match side {
        Side::White => 5 <= p.row,
        Side::Black => p.row <= 2,
    }
}

/// The standard starting pieces of a side: men on the three dark rows
/// nearest its home edge.
pub open spec fn initial_pieces(side: Side) -> Map<Position, Piece> {
    Map::new(|p: Position| initial_cell(side, p), |p: Position| Piece::Man)
}

/// The board after the piece of `side` on `from` is relocated to `to`.
pub open spec fn spec_move_piece(
    v: BoardModel,
    side: Side,
    from: Position,
    to: Position,
) -> BoardModel {
    v.set_pieces(side, v.pieces_of(side).remove(from).insert(to, v.pieces_of(side)[from]))
}

/// The board after the piece of `side` on `p` is promoted to a king.
pub open spec fn spec_turn_man_to_king(v: BoardModel, side: Side, p: Position) -> BoardModel {
    v.set_pieces(side, v.pieces_of(side).insert(p, Piece::King))
}

/// The board after every cell of `positions` is removed from `side`'s map.
pub open spec fn spec_remove_pieces(
    v: BoardModel,
    positions: Seq<Position>,
    side: Side,
) -> BoardModel {
    v.set_pieces(side, v.pieces_of(side).remove_keys(positions.to_set()))
}

/// The board after the move passes to the other side.
pub open spec fn spec_pass_the_move(v: BoardModel) -> BoardModel {
    BoardModel { turn: v.turn.spec_opposite(), ..v }
}

/// One complete plain move of `side` from `from` to `to`: the piece is
/// relocated; if it is a man that reached the opposing home row it is
/// promoted and the turn is kept, otherwise the move passes.
pub open spec fn spec_apply_move(
    v: BoardModel,
    side: Side,
    from: Position,
    to: Position,
) -> BoardModel {
    let moved = spec_move_piece(v, side, from, to);
    if spec_promotion_due(moved, side, to) {
        spec_turn_man_to_king(moved, side, to)
    } else {
        spec_pass_the_move(moved)
    }
}

/// One complete capture of `side`: the taken enemy pieces are removed, the
/// capturing piece is relocated, and promotion or turn passing follows as
/// for a plain move.
pub open spec fn spec_apply_taking(
    v: BoardModel,
    side: Side,
    from: Position,
    to: Position,
    taken: Seq<Position>,
) -> BoardModel {
    spec_apply_move(spec_remove_pieces(v, taken, side.spec_opposite()), side, from, to)
}

/// A man's plain move: one diagonal step in its side's forward direction,
/// onto an empty on-board cell.
pub open spec fn man_move_ok(v: BoardModel, p: Position, side: Side, q: Position) -> bool {
    &&& q.row as int == (match side {
        Side::White => p.row - 1,
        Side::Black => p.row + 1,
    })
    &&& (q.column as int == p.column - 1 || q.column as int == p.column + 1)
    &&& spec_in_board(q)
    &&& !v.occupied(q)
}

/// A king's plain move to the cell `k` steps along ray `d`: the destination
/// is an empty on-board cell and every cell strictly before it on the ray is
/// free of pieces.
pub open spec fn king_move_via(
    v: BoardModel,
    p: Position,
    q: Position,
    d: Direction,
    k: int,
) -> bool {
    &&& 1 <= k <= 8
    &&& q.row as int == ray_row(p, d, k)
    &&& q.column as int == ray_col(p, d, k)
    &&& spec_in_board(q)
    &&& !v.occupied(q)
    &&& forall|j: int| 1 <= j < k ==> !v.occ_rc(ray_row(p, d, j), ray_col(p, d, j))
}

/// A king's plain move: it slides along one of the four rays over empty
/// cells only.
pub open spec fn king_move_ok(v: BoardModel, p: Position, q: Position) -> bool {
    exists|d: Direction, k: int| king_move_via(v, p, q, d, k)
}

/// Exactly the plain-movement routes of a piece of `side` standing on `p`.
pub open spec fn movement_route_ok(
    v: BoardModel,
    p: Position,
    piece: Piece,
    side: Side,
    rm: RouteModel,
) -> bool {
    match rm {
        RouteModel::Movement(q) => match piece {
            Piece::Man => man_move_ok(v, p, side, q),
            Piece::King => king_move_ok(v, p, q),
        },
        RouteModel::Taking(_, _) => false,
    }
}

/// The landing cell of a capture of the piece on `e` approached along `d`:
/// the cell immediately beyond it.
pub open spec fn landing_of(e: Position, d: Direction) -> Position {
    pos_rc(ray_row(e, d, 1), ray_col(e, d, 1))
}

/// The enemy piece on `e` can be taken when approached along `d`: the cell
/// just beyond it is on the board and empty.
pub open spec fn spec_takable(v: BoardModel, side: Side, e: Position, d: Direction) -> bool {
    &&& v.pieces_of(side.spec_opposite()).contains_key(e)
    &&& in_board_rc(ray_row(e, d, 1), ray_col(e, d, 1))
    &&& !v.occupied(landing_of(e, d))
}

/// One capture step: a piece of `side` standing on `p` takes the enemy piece
/// on `e` along ray `d` and lands just beyond it. A man only reaches the
/// adjacent cell; a king reaches the first occupied cell of the ray. Pieces
/// already taken this turn (`taken`) still block rays but cannot be taken
/// again.
pub open spec fn step_via(
    v: BoardModel,
    piece: Piece,
    side: Side,
    p: Position,
    taken: Seq<Position>,
    d: Direction,
    e: Position,
) -> bool {
    &&& match piece {
        Piece::Man => e.row as int == ray_row(p, d, 1) && e.column as int == ray_col(p, d, 1),
        Piece::King => exists|k: int|
            1 <= k <= 8 && e.row as int == ray_row(p, d, k) && e.column as int == #[trigger] ray_col(
                p,
                d,
                k,
            ) && (forall|j: int| 1 <= j < k ==> !v.occ_rc(ray_row(p, d, j), ray_col(p, d, j))),
    }
    &&& !taken.contains(e)
    &&& spec_takable(v, side, e, d)
}

/// A capture chain from `p`: `chain` lists the captured cells in order and
/// `dest` is the cell the capturing piece finally lands on. The board is not
/// changed while a chain is searched, so earlier captures only accumulate in
/// `taken`.
pub open spec fn chain_ok(
    v: BoardModel,
    piece: Piece,
    side: Side,
    p: Position,
    taken: Seq<Position>,
    chain: Seq<Position>,
    dest: Position,
) -> bool
    decreases chain.len(),
{
    if chain.len() == 0 {
        false
    } else {
        exists|d: Direction|
            {
                &&& #[trigger] step_via(v, piece, side, p, taken, d, chain[0])
                &&& if chain.len() == 1 {
                    dest == landing_of(chain[0], d)
                } else {
                    chain_ok(
                        v,
                        piece,
                        side,
                        landing_of(chain[0], d),
                        taken.push(chain[0]),
                        chain.skip(1),
                        dest,
                    )
                }
            }
    }
}

/// The routes the capture search may add when it resumes from `p` with
/// `taken` already captured: the route's list extends `taken` by one valid
/// chain, and its destination is the chain's final landing cell.
pub open spec fn extension_ok(
    v: BoardModel,
    piece: Piece,
    side: Side,
    p: Position,
    taken: Seq<Position>,
    rm: RouteModel,
) -> bool {
    match rm {
        RouteModel::Taking(dest, full) => {
            &&& full.len() > taken.len()
            &&& full.take(taken.len() as int) == taken
            &&& chain_ok(v, piece, side, p, taken, full.skip(taken.len() as int), dest)
        },
        RouteModel::Movement(_) => false,
    }
}

/// Exactly the capture routes of a piece of `side` standing on `p`: one
/// route per reachable landing cell, carrying the cells captured to get
/// there, including every partial chain.
pub open spec fn taking_route_ok(
    v: BoardModel,
    p: Position,
    piece: Piece,
    side: Side,
    rm: RouteModel,
) -> bool {
    extension_ok(v, piece, side, p, Seq::empty(), rm)
}

/// What one capture candidate `(e, d)` contributes to the search's output:
/// the route that stops after taking `e`, and every route that continues
/// from its landing cell.
pub open spec fn step_contribution(
    v: BoardModel,
    piece: Piece,
    side: Side,
    taken: Seq<Position>,
    e: Position,
    d: Direction,
    rm: RouteModel,
) -> bool {
    ||| rm == RouteModel::Taking(landing_of(e, d), taken.push(e))
    ||| extension_ok(v, piece, side, landing_of(e, d), taken.push(e), rm)
}

/// A route extends `taken` exactly when some capture candidate contributes
/// it: its chain begins with a first capture step.
pub proof fn lemma_extension_unfold(
    v: BoardModel,
    piece: Piece,
    side: Side,
    p: Position,
    taken: Seq<Position>,
    rm: RouteModel,
)
    ensures
        extension_ok(v, piece, side, p, taken, rm) <==> exists|d: Direction, e: Position|
            #[trigger] step_via(v, piece, side, p, taken, d, e) && step_contribution(
                v,
                piece,
                side,
                taken,
                e,
                d,
                rm,
            ),
{
    let n = taken.len() as int;
    if extension_ok(v, piece, side, p, taken, rm) {
        match rm {
            RouteModel::Taking(dest, full) => {
                let chain = full.skip(n);
                let e = chain[0];
                assert(e == full[n]);
                let d = choose|d: Direction|
                    {
                        &&& #[trigger] step_via(v, piece, side, p, taken, d, chain[0])
                        &&& if chain.len() == 1 {
                            dest == landing_of(chain[0], d)
                        } else {
                            chain_ok(
                                v,
                                piece,
                                side,
                                landing_of(chain[0], d),
                                taken.push(chain[0]),
                                chain.skip(1),
                                dest,
                            )
                        }
                    };
                assert forall|i: int| 0 <= i < n implies full[i] == taken[i] by {
                    assert(full.take(n)[i] == full[i]);
                    assert(full.take(n)[i] == taken[i]);
                }
                if chain.len() == 1 {
                    assert(full =~= taken.push(e));
                    assert(rm == RouteModel::Taking(landing_of(e, d), taken.push(e)));
                    assert(step_via(v, piece, side, p, taken, d, e) && step_contribution(
                        v,
                        piece,
                        side,
                        taken,
                        e,
                        d,
                        rm,
                    ));
                } else {
                    assert(full.take(n + 1) =~= taken.push(e));
                    assert(chain.skip(1) =~= full.skip(n + 1));
                    assert(extension_ok(v, piece, side, landing_of(e, d), taken.push(e), rm));
                    assert(step_via(v, piece, side, p, taken, d, e) && step_contribution(
                        v,
                        piece,
                        side,
                        taken,
                        e,
                        d,
                        rm,
                    ));
                }
            },
            RouteModel::Movement(_) => {},
        }
    }
    if exists|d: Direction, e: Position|
        #[trigger] step_via(v, piece, side, p, taken, d, e) && step_contribution(
            v,
            piece,
            side,
            taken,
            e,
            d,
            rm,
        ) {
        let (d, e) = choose|d: Direction, e: Position|
            #[trigger] step_via(v, piece, side, p, taken, d, e) && step_contribution(
                v,
                piece,
                side,
                taken,
                e,
                d,
                rm,
            );
        if rm == RouteModel::Taking(landing_of(e, d), taken.push(e)) {
            let full = taken.push(e);
            let chain = full.skip(n);
            assert(full.take(n) =~= taken);
            assert(chain.len() == 1);
            assert(chain[0] == e);
            assert(step_via(v, piece, side, p, taken, d, chain[0]) && landing_of(e, d)
                == landing_of(chain[0], d));
            assert(chain_ok(v, piece, side, p, taken, chain, landing_of(e, d)));
            assert(extension_ok(v, piece, side, p, taken, rm));
        } else {
            match rm {
                RouteModel::Taking(dest, full) => {
                    assert(full.take(n + 1) == taken.push(e));
                    assert forall|i: int| 0 <= i < n + 1 implies full[i] == taken.push(e)[i] by {
                        assert(full.take(n + 1)[i] == full[i]);
                    }
                    assert(full.take(n) =~= taken);
                    assert(full[n] == e);
                    let chain = full.skip(n);
                    assert(chain[0] == e);
                    assert(chain.skip(1) =~= full.skip(n + 1));
                    assert(chain.len() > 1);
                    assert(chain_ok(
                        v,
                        piece,
                        side,
                        landing_of(chain[0], d),
                        taken.push(chain[0]),
                        chain.skip(1),
                        dest,
                    ));
                    assert(step_via(v, piece, side, p, taken, d, chain[0]));
                    assert(chain_ok(v, piece, side, p, taken, chain, dest));
                    assert(extension_ok(v, piece, side, p, taken, rm));
                },
                RouteModel::Movement(_) => {},
            }
        }
    }
}
/// Distinct cells that all hold enemy pieces cannot outnumber the enemy's
/// pieces.
proof fn lemma_taken_bound(v: BoardModel, side: Side, taken: Seq<Position>)
    requires
        v.pieces_of(side.spec_opposite()).dom().finite(),
        taken.no_duplicates(),
        forall|i: int|
            0 <= i < taken.len() ==> v.pieces_of(side.spec_opposite()).contains_key(
                #[trigger] taken[i],
            ),
    ensures
        taken.len() <= v.pieces_of(side.spec_opposite()).len(),
{
    let enemy = v.pieces_of(side.spec_opposite());
    taken.unique_seq_to_set();
    assert forall|x: Position| taken.to_set().contains(x) implies enemy.dom().contains(x) by {
        let i = choose|i: int| 0 <= i < taken.len() && taken[i] == x;
    }
    vstd::set_lib::lemma_len_subset(taken.to_set(), enemy.dom());
}

/// Whether `p` occurs in `v`.
fn positions_contain(v: &Vec<Position>, p: Position) -> (r: bool)
    ensures
        r == v@.contains(p),
{
    let mut i: usize = 0;
    while i < v.len()
        invariant
            i <= v@.len(),
            forall|j: int| 0 <= j < i ==> v@[j] != p,
        decreases v@.len() - i,
    {
        if v[i] == p {
            return true;
        }
        i = i + 1;
    }
    false
}

/// A copy of a vector of cells.
fn copy_positions(v: &Vec<Position>) -> (r: Vec<Position>)
    ensures
        r@ == v@,
{
    let mut copy: Vec<Position> = Vec::new();
    let mut i: usize = 0;
    while i < v.len()
        invariant
            i <= v@.len(),
            copy@ == v@.take(i as int),
        decreases v@.len() - i,
    {
        copy.push(v[i]);
        proof {
            assert(copy@ =~= v@.take(i + 1 as int));
        }
        i = i + 1;
    }
    proof {
        assert(copy@ =~= v@);
    }
    copy
}

/// A ray that has left the board never re-enters it.
proof fn lemma_ray_stays_off(p: Position, d: Direction, k1: int, k2: int)
    requires
        spec_in_board(p),
        1 <= k1 <= k2,
        !in_board_rc(ray_row(p, d, k1), ray_col(p, d, k1)),
    ensures
        !in_board_rc(ray_row(p, d, k2), ray_col(p, d, k2)),
{
    match d {
        Direction::LeftUp => {
            assert(ray_row(p, d, k1) == p.row - k1);
            assert(ray_col(p, d, k1) == p.column - k1);
            assert(ray_row(p, d, k2) == p.row - k2);
            assert(ray_col(p, d, k2) == p.column - k2);
        },
        Direction::RightUp => {
            assert(ray_row(p, d, k1) == p.row - k1);
            assert(ray_col(p, d, k1) == p.column + k1);
            assert(ray_row(p, d, k2) == p.row - k2);
            assert(ray_col(p, d, k2) == p.column + k2);
        },
        Direction::LeftDown => {
            assert(ray_row(p, d, k1) == p.row + k1);
            assert(ray_col(p, d, k1) == p.column - k1);
            assert(ray_row(p, d, k2) == p.row + k2);
            assert(ray_col(p, d, k2) == p.column - k2);
        },
        Direction::RightDown => {
            assert(ray_row(p, d, k1) == p.row + k1);
            assert(ray_col(p, d, k1) == p.column + k1);
            assert(ray_row(p, d, k2) == p.row + k2);
            assert(ray_col(p, d, k2) == p.column + k2);
        },
    }
}

/// Eight steps along any ray leave the board.
proof fn lemma_ray_eight_off(p: Position, d: Direction)
    requires
        spec_in_board(p),
    ensures
        !in_board_rc(ray_row(p, d, 8), ray_col(p, d, 8)),
{
    match d {
        Direction::LeftUp => {
            assert(ray_row(p, d, 8) == p.row - 8);
        },
        Direction::RightUp => {
            assert(ray_row(p, d, 8) == p.row - 8);
        },
        Direction::LeftDown => {
            assert(ray_row(p, d, 8) == p.row + 8);
        },
        Direction::RightDown => {
            assert(ray_row(p, d, 8) == p.row + 8);
        },
    }
}

/// The starting cells of a side enumerated up to row `r`, column `c`, in
/// row-major order.
pub open spec fn initial_upto(side: Side, r: int, c: int) -> Map<Position, Piece> {
    Map::new(
        |p: Position| initial_cell(side, p) && (p.row < r || (p.row == r && p.column < c)),
        |p: Position| Piece::Man,
    )
}

/// Builds the standard starting pieces of one side: twelve men on the dark
/// cells of the three rows nearest its home edge.
fn initial_map_for(side: Side) -> (pm: PieceMap)
    ensures
        pm.inv(),
        pm@ == initial_pieces(side),
{
    let mut pm = PieceMap::new();
    let lo: i8 = match side {
        Side::White => 5,
        Side::Black => 0,
    };
    let hi: i8 = match side {
        Side::White => 8,
        Side::Black => 3,
    };
    proof {
        assert(pm@ =~= initial_upto(side, lo as int, 0));
    }
    let mut row: i8 = lo;
    while row < hi
        invariant
            lo <= row <= hi,
            (lo == 5 && hi == 8 && side == Side::White) || (lo == 0 && hi == 3 && side
                == Side::Black),
            pm.inv(),
            pm@ == initial_upto(side, row as int, 0),
        decreases hi - row,
    {
        let mut col: i8 = 0;
        while col < 8
            invariant
                0 <= col <= 8,
                lo <= row < hi,
                (lo == 5 && hi == 8 && side == Side::White) || (lo == 0 && hi == 3 && side
                    == Side::Black),
                pm.inv(),
                pm@ == initial_upto(side, row as int, col as int),
            decreases 8 - col,
        {
            if (row + col) % 2 == 1 {
                pm.insert(Position { row, column: col }, Piece::Man);
            }
            proof {
                assert(pm@ =~= initial_upto(side, row as int, col + 1 as int));
            }
            col = col + 1;
        }
        proof {
            assert(pm@ =~= initial_upto(side, row + 1 as int, 0));
        }
        row = row + 1;
    }
    proof {
        assert(pm@ =~= initial_pieces(side));
    }
    pm
}

/// The state of a running game: the pieces of both sides and whose move it
/// is.
#[derive(Debug)]
pub struct GameData {
    white_pieces: PieceMap,
    black_pieces: PieceMap,
    current_move: Side,
}

impl View for GameData {
    type V = BoardModel;

    closed spec fn view(&self) -> BoardModel {
        BoardModel { white: self.white_pieces@, black: self.black_pieces@, turn: self.current_move }
    }
}

impl GameData {
    /// The representation invariants of both piece maps, and the board
    /// invariants of the model.
    pub open spec fn wf(&self) -> bool {
        &&& self.inv()
        &&& self@.wf()
    }

    /// The representation invariant alone.
    pub closed spec fn inv(&self) -> bool {
        &&& self.white_pieces.inv()
        &&& self.black_pieces.inv()
    }

    /// The size of the board in cells: `(rows, columns)`.
    pub fn board_cells(&self) -> (r: (i8, i8))
        ensures
            r == (BOARD_SIZE, BOARD_SIZE),
    {
        (BOARD_SIZE, BOARD_SIZE)
    }

    /// A board with no pieces at all and `current_move` to move; positions
    /// are then placed one by one.
    pub fn empty(current_move: Side) -> (r: GameData)
        ensures
            r.wf(),
            r@.white == Map::<Position, Piece>::empty(),
            r@.black == Map::<Position, Piece>::empty(),
            r@.turn == current_move,
    {
        GameData { white_pieces: PieceMap::new(), black_pieces: PieceMap::new(), current_move }
    }

    /// Puts a piece of `side` on the dark on-board cell `position`, which
    /// must be free of the other side's pieces.
    pub fn place_piece(&mut self, side: Side, position: Position, piece: Piece)
        requires
            old(self).wf(),
            spec_in_board(position),
            dark_cell(position),
            !old(self)@.pieces_of(side.spec_opposite()).contains_key(position),
        ensures
            final(self).wf(),
            final(self)@ == old(self)@.set_pieces(
                side,
                old(self)@.pieces_of(side).insert(position, piece),
            ),
    {
        let pieces = match side {
            Side::White => &mut self.white_pieces,
            Side::Black => &mut self.black_pieces,
        };
        pieces.insert(position, piece);
    }

    /// The piece of `side` standing on `position`, if any.
    pub fn get_piece(&self, side: Side, position: Position) -> (r: Option<Piece>)
        requires
            self.wf(),
        ensures
            r == if self@.pieces_of(side).contains_key(position) {
                Some(self@.pieces_of(side)[position])
            } else {
                None::<Piece>
            },
    {
        self.pieces(side).get(position)
    }

    /// The coordinates of every board cell, row-major.
    pub fn board_cell_coordinates(&self) -> (r: Vec<(i8, i8)>)
        ensures
            r@.len() == 64,
            forall|i: int| 0 <= i < 64 ==> (#[trigger] r@[i]).0 == i / 8 && r@[i].1 == i % 8,
    {
        let mut cells: Vec<(i8, i8)> = Vec::new();
        let mut row: i8 = 0;
        while row < 8
            invariant
                0 <= row <= 8,
                cells@.len() == 8 * row,
                forall|i: int|
                    0 <= i < cells@.len() ==> (#[trigger] cells@[i]).0 == i / 8 && cells@[i].1 == i
                        % 8,
            decreases 8 - row,
        {
            let mut col: i8 = 0;
            while col < 8
                invariant
                    0 <= row < 8,
                    0 <= col <= 8,
                    cells@.len() == 8 * row + col,
                    forall|i: int|
                        0 <= i < cells@.len() ==> (#[trigger] cells@[i]).0 == i / 8 && cells@[i].1
                            == i % 8,
                decreases 8 - col,
            {
                cells.push((row, col));
                col = col + 1;
            }
            row = row + 1;
        }
        cells
    }

    /// Whether `position` lies within the board.
    pub fn is_inside_board(&self, position: Position) -> (r: bool)
        ensures
            r == spec_in_board(position),
    {
        0 <= position.row && position.row < BOARD_SIZE && 0 <= position.column && position.column
            < BOARD_SIZE
    }

    /// Whether no piece of either side stands on `position`.
    pub fn is_cell_empty(&self, position: Position) -> (r: bool)
        ensures
            r == !self@.occupied(position),
    {
        !self.white_pieces.contains_key(position) && !self.black_pieces.contains_key(position)
    }

    /// The piece map of one side.
    pub fn pieces(&self, side: Side) -> (r: &PieceMap)
        ensures
            r@ == self@.pieces_of(side),
            self.inv() ==> r.inv(),
    {
        match side {
            Side::White => &self.white_pieces,
            Side::Black => &self.black_pieces,
        }
    }

    /// Whose move it currently is.
    pub fn current_move(&self) -> (r: Side)
        ensures
            r == self@.turn,
    {
        self.current_move
    }

    /// Whether cell `position` holds a piece of `current_side`.
    pub fn contains_ally_piece(&self, position: Position, current_side: Side) -> (r: bool)
        ensures
            r == self@.pieces_of(current_side).contains_key(position),
    {
        self.pieces(current_side).contains_key(position)
    }

    /// The game is over when either side has no pieces left.
    pub fn is_game_ended(&self) -> (r: bool)
        requires
            self.wf(),
        ensures
            r == (self@.white.len() == 0 || self@.black.len() == 0),
    {
        self.white_pieces.is_empty() || self.black_pieces.is_empty()
    }

    /// Whether the piece of `side` on `position` must now be promoted: it is
    /// a man standing on the opposing side's home row.
    pub fn is_turning_to_king_condition_satisfied(&self, side: Side, position: Position) -> (r:
        bool)
        requires
            self.wf(),
            self@.pieces_of(side).contains_key(position),
        ensures
            r == spec_promotion_due(self@, side, position),
    {
        let piece = match side {
            Side::White => self.white_pieces.get(position),
            Side::Black => self.black_pieces.get(position),
        };
        let piece = match piece {
            Some(piece) => piece,
            None => {
                proof {
                    assert(false);
                }
                Piece::Man
            },
        };
        if piece.is_king() {
            return false;
        }
        match side {
            Side::White => position.row == 0,
            Side::Black => position.row == BOARD_SIZE - 1,
        }
    }

    /// Promotes the piece of `side` on `position` to a king.
    pub fn turn_man_to_king(&mut self, side: Side, position: Position)
        requires
            old(self).wf(),
            old(self)@.pieces_of(side).contains_key(position),
        ensures
            final(self).wf(),
            final(self)@ == spec_turn_man_to_king(old(self)@, side, position),
    {
        let pieces = match side {
            Side::White => &mut self.white_pieces,
            Side::Black => &mut self.black_pieces,
        };
        pieces.insert(position, Piece::King);
    }

    /// Deletes every given position from `side`'s piece map; positions that
    /// hold no piece of that side are ignored.
    pub fn remove_pieces(&mut self, positions: &Vec<Position>, side: Side)
        requires
            old(self).wf(),
        ensures
            final(self).wf(),
            final(self)@ == spec_remove_pieces(old(self)@, positions@, side),
    {
        let ghost orig = self@.pieces_of(side);
        let pieces = match side {
            Side::White => &mut self.white_pieces,
            Side::Black => &mut self.black_pieces,
        };
        let mut i: usize = 0;
        while i < positions.len()
            invariant
                i <= positions@.len(),
                pieces.inv(),
                pieces@ == orig.remove_keys(positions@.take(i as int).to_set()),
            decreases positions@.len() - i,
        {
            pieces.remove(positions[i]);
            proof {
                let p = positions@[i as int];
                let t0 = positions@.take(i as int);
                let t1 = positions@.take(i + 1 as int);
                assert forall|x: Position| t1.contains(x) implies t0.contains(x) || x == p by {
                    let j = choose|j: int| 0 <= j < t1.len() && t1[j] == x;
                    if j < i as int {
                        assert(t0[j] == x);
                    }
                };
                assert forall|x: Position| t0.contains(x) implies t1.contains(x) by {
                    let j = choose|j: int| 0 <= j < t0.len() && t0[j] == x;
                    assert(t1[j] == x);
                };
                assert(t1[i as int] == p);
                assert(t1.to_set() =~= t0.to_set().insert(p));
                assert(orig.remove_keys(t0.to_set()).remove(p) =~= orig.remove_keys(t1.to_set()));
            }
            i = i + 1;
        }
        proof {
            assert(positions@.take(positions@.len() as int) =~= positions@);
            self.white_pieces.lemma_finite();
            self.black_pieces.lemma_finite();
        }
    }

    /// Relocates the piece of `side` standing on `from` to the empty cell
    /// `to`.
    pub fn move_piece(&mut self, side: Side, from: Position, to: Position)
        requires
            old(self).wf(),
            old(self)@.pieces_of(side).contains_key(from),
            spec_in_board(to),
            dark_cell(to),
            to != from ==> !old(self)@.occupied(to),
        ensures
            final(self).wf(),
            final(self)@ == spec_move_piece(old(self)@, side, from, to),
    {
        let pieces = match side {
            Side::White => &mut self.white_pieces,
            Side::Black => &mut self.black_pieces,
        };
        let piece = match pieces.get(from) {
            Some(piece) => piece,
            None => {
                proof {
                    assert(false);
                }
                Piece::Man
            },
        };
        pieces.remove(from);
        pieces.insert(to, piece);
    }

    /// Walks one ray from `position` and appends a plain-movement route for
    /// every empty cell strictly before the first occupied cell.
    fn king_ray_moves(&self, position: Position, d: Direction, routes: &mut Vec<Route>)
        requires
            self.wf(),
            spec_in_board(position),
        ensures
            final(routes)@.len() >= old(routes)@.len(),
            forall|i: int| 0 <= i < old(routes)@.len() ==> final(routes)@[i] == old(routes)@[i],
            forall|rm: RouteModel|
                among(final(routes)@, old(routes)@.len() as int, final(routes)@.len() as int, rm)
                    <==> exists|q: Position, k: int|
                    rm == RouteModel::Movement(q) && #[trigger] king_move_via(
                        self@,
                        position,
                        q,
                        d,
                        k,
                    ),
    {
        let ghost n0 = routes@.len() as int;
        let ghost v = self@;
        let mut cur = position;
        let mut steps: i8 = 0;
        loop
            invariant
                self.wf(),
                v == self@,
                spec_in_board(position),
                0 <= steps <= 7,
                spec_in_board(cur),
                cur.row as int == ray_row(position, d, steps as int),
                cur.column as int == ray_col(position, d, steps as int),
                forall|j: int|
                    1 <= j <= steps ==> in_board_rc(
                        ray_row(position, d, j),
                        #[trigger] ray_col(position, d, j),
                    ) && !v.occ_rc(ray_row(position, d, j), ray_col(position, d, j)),
                routes@.len() == n0 + steps,
                n0 == old(routes)@.len(),
                forall|i: int| 0 <= i < n0 ==> routes@[i] == old(routes)@[i],
                forall|i: int|
                    n0 <= i < routes@.len() ==> ((#[trigger] routes@[i])@ matches
                    RouteModel::Movement(q) && q.row as int == ray_row(position, d, i - n0 + 1)
                        && q.column as int == ray_col(position, d, i - n0 + 1)),
            ensures
                !in_board_rc(ray_row(position, d, steps as int + 1), ray_col(position, d, steps
                    as int + 1)) || v.occ_rc(ray_row(position, d, steps as int + 1), ray_col(
                    position,
                    d,
                    steps as int + 1,
                )),
            decreases 8 - steps,
        {
            let next = cur.next_diagonal(d);
            if !self.is_inside_board(next) {
                break ;
            }
            if !self.is_cell_empty(next) {
                break ;
            }
            routes.push(Route::Movement(next));
            proof {
                if steps as int + 1 >= 8 {
                    lemma_ray_eight_off(position, d);
                    assert(false);
                }
            }
            cur = next;
            steps = steps + 1;
        }
        proof {
            let sf = steps as int;
            assert forall|rm: RouteModel|
                among(routes@, n0, routes@.len() as int, rm) implies exists|q: Position, k: int|
                rm == RouteModel::Movement(q) && #[trigger] king_move_via(
                    v,
                    position,
                    q,
                    d,
                    k,
                ) by {
                let i = choose|i: int|
                    n0 <= i < routes@.len() as int && i < routes@.len() && (#[trigger] routes@[i])@
                        == rm;
                let k = i - n0 + 1;
                let q = routes@[i]@->Movement_0;
                assert(in_board_rc(ray_row(position, d, k), ray_col(position, d, k)));
                assert(!v.occ_rc(ray_row(position, d, k), ray_col(position, d, k)));
                assert(spec_in_board(q));
                assert(pos_rc(ray_row(position, d, k), ray_col(position, d, k)) == q);
                assert(!v.occupied(q));
                assert(king_move_via(v, position, q, d, k));
            };
            assert forall|q: Position, k: int|
                #[trigger] king_move_via(v, position, q, d, k) implies among(
                routes@,
                n0,
                routes@.len() as int,
                RouteModel::Movement(q),
            ) by {
                if k > sf {
                    if in_board_rc(ray_row(position, d, sf + 1), ray_col(position, d, sf + 1)) {
                        // the walk stopped at an occupied cell
                        assert(v.occ_rc(ray_row(position, d, sf + 1), ray_col(position, d, sf + 1)));
                        if k == sf + 1 {
                            assert(pos_rc(ray_row(position, d, k), ray_col(position, d, k)) == q);
                            assert(false);
                        } else {
                            assert(!v.occ_rc(ray_row(position, d, sf + 1), ray_col(position, d, sf + 1)));
                            assert(false);
                        }
                    } else {
                        // the walk left the board
                        if k == sf + 1 {
                            assert(spec_in_board(q));
                            assert(false);
                        } else {
                            lemma_ray_stays_off(position, d, sf + 1, k);
                            assert(false);
                        }
                    }
                }
                let i = n0 + k - 1;
                assert((routes@[i]@ matches RouteModel::Movement(qq) && qq.row as int == ray_row(
                    position,
                    d,
                    k,
                ) && qq.column as int == ray_col(position, d, k)));
                assert(routes@[i]@ == RouteModel::Movement(q));
            };
        }
    }

    /// Every plain-movement route of `piece` of `side` standing on
    /// `position`: one forward diagonal step for a man, a free slide along
    /// any ray for a king, always onto an empty on-board cell.
    pub fn get_movement_routes(&self, position: Position, piece: Piece, side: Side) -> (r: Vec<
        Route,
    >)
        requires
            self.wf(),
            spec_in_board(position),
        ensures
            forall|rm: RouteModel| #[trigger]
                route_views(r@).contains(rm) <==> movement_route_ok(
                    self@,
                    position,
                    piece,
                    side,
                    rm,
                ),
    {
        let ghost v = self@;
        let mut routes: Vec<Route> = Vec::new();
        match piece {
            Piece::Man => {
                let cands = match side {
                    Side::White => position.top_diagonal_neighbours(),
                    Side::Black => position.bottom_diagonal_neighbours(),
                };
                let c0 = cands[0];
                let c1 = cands[1];
                if self.is_cell_empty(c0) && self.is_inside_board(c0) {
                    routes.push(Route::Movement(c0));
                }
                if self.is_cell_empty(c1) && self.is_inside_board(c1) {
                    routes.push(Route::Movement(c1));
                }
                proof {
                    assert forall|rm: RouteModel|
                        route_views(routes@).contains(rm) implies movement_route_ok(
                        v,
                        position,
                        piece,
                        side,
                        rm,
                    ) by {
                        lemma_route_views_index(routes@, rm);
                    };
                    assert forall|rm: RouteModel|
                        movement_route_ok(v, position, piece, side, rm) implies route_views(
                        routes@,
                    ).contains(rm) by {
                        match rm {
                            RouteModel::Movement(q) => {
                                if q.column as int == position.column - 1 {
                                    assert(q == c0);
                                    assert(routes@[0]@ == rm);
                                    lemma_route_views_contains(routes@, 0);
                                } else {
                                    assert(q == c1);
                                    assert(routes@[routes@.len() - 1]@ == rm);
                                    lemma_route_views_contains(routes@, routes@.len() - 1);
                                }
                            },
                            RouteModel::Taking(_, _) => {},
                        }
                    };
                }
            },
            Piece::King => {
                self.king_ray_moves(position, Direction::LeftUp, &mut routes);
                let ghost s1 = routes@;
                self.king_ray_moves(position, Direction::RightUp, &mut routes);
                let ghost s2 = routes@;
                self.king_ray_moves(position, Direction::LeftDown, &mut routes);
                let ghost s3 = routes@;
                self.king_ray_moves(position, Direction::RightDown, &mut routes);
                let ghost s4 = routes@;
                let ghost n1 = s1.len() as int;
                let ghost n2 = s2.len() as int;
                let ghost n3 = s3.len() as int;
                let ghost n4 = s4.len() as int;
                proof {
                    assert forall|i: int| 0 <= i < n1 implies s4[i] == s1[i] by {}
                    assert forall|i: int| 0 <= i < n2 implies s4[i] == s2[i] by {}
                    assert forall|rm: RouteModel|
                        route_views(routes@).contains(rm) implies movement_route_ok(
                        v,
                        position,
                        piece,
                        side,
                        rm,
                    ) by {
                        lemma_among_is_contains(s4, rm);
                        lemma_among_split(s4, 0, n1, n4, rm);
                        lemma_among_split(s4, n1, n2, n4, rm);
                        lemma_among_split(s4, n2, n3, n4, rm);
                        if among(s4, 0, n1, rm) {
                            lemma_among_frame(s1, s4, 0, n1, rm);
                        } else if among(s4, n1, n2, rm) {
                            lemma_among_frame(s2, s4, n1, n2, rm);
                        } else if among(s4, n2, n3, rm) {
                            lemma_among_frame(s3, s4, n2, n3, rm);
                        }
                    };
                    assert forall|rm: RouteModel|
                        movement_route_ok(v, position, piece, side, rm) implies route_views(
                        routes@,
                    ).contains(rm) by {
                        match rm {
                            RouteModel::Movement(q) => {
                                let (d, k) = choose|d: Direction, k: int|
                                    king_move_via(v, position, q, d, k);
                                match d {
                                    Direction::LeftUp => {
                                        assert(among(s1, 0, n1, rm));
                                        lemma_among_frame(s1, s4, 0, n1, rm);
                                        lemma_among_split(s4, 0, n1, n4, rm);
                                    },
                                    Direction::RightUp => {
                                        assert(among(s2, n1, n2, rm));
                                        lemma_among_frame(s2, s4, n1, n2, rm);
                                        lemma_among_split(s4, n1, n2, n4, rm);
                                        lemma_among_split(s4, 0, n1, n4, rm);
                                    },
                                    Direction::LeftDown => {
                                        assert(among(s3, n2, n3, rm));
                                        lemma_among_frame(s3, s4, n2, n3, rm);
                                        lemma_among_split(s4, n2, n3, n4, rm);
                                        lemma_among_split(s4, n1, n2, n4, rm);
                                        lemma_among_split(s4, 0, n1, n4, rm);
                                    },
                                    Direction::RightDown => {
                                        assert(among(s4, n3, n4, rm));
                                        lemma_among_split(s4, n2, n3, n4, rm);
                                        lemma_among_split(s4, n1, n2, n4, rm);
                                        lemma_among_split(s4, 0, n1, n4, rm);
                                    },
                                }
                                lemma_among_is_contains(s4, rm);
                            },
                            RouteModel::Taking(_, _) => {},
                        }
                    };
                }
            },
        }
        routes
    }

    /// Whether cell `position` holds an enemy piece of `current_side` that
    /// can be taken along `direction`: the cell just beyond it is on the
    /// board and empty.
    pub fn contains_takable_enemy_piece(
        &self,
        position: Position,
        direction: Direction,
        current_side: Side,
    ) -> (r: bool)
        requires
            i8::MIN < position.row < i8::MAX,
            i8::MIN < position.column < i8::MAX,
        ensures
            r == spec_takable(self@, current_side, position, direction),
    {
        let next = position.next_diagonal(direction);
        proof {
            assert(next == landing_of(position, direction));
        }
        self.pieces(current_side.opposite()).contains_key(position) && self.is_inside_board(next)
            && self.is_cell_empty(next)
    }

    /// Appends the capture candidate of a man on `position` along `d`, if
    /// the adjacent cell there holds a takable enemy piece not yet captured.
    fn man_capture_candidate(
        &self,
        position: Position,
        side: Side,
        taken: &Vec<Position>,
        d: Direction,
        cands: &mut Vec<(Position, Direction)>,
    )
        requires
            self.wf(),
            spec_in_board(position),
        ensures
            forall|e: Position, dd: Direction|
                final(cands)@.contains((e, dd)) <==> (old(cands)@.contains((e, dd)) || (dd == d
                    && step_via(self@, Piece::Man, side, position, taken@, d, e))),
    {
        let e = position.next_diagonal(d);
        if !positions_contain(taken, e) && self.contains_takable_enemy_piece(e, d, side) {
            cands.push((e, d));
            proof {
                assert(step_via(self@, Piece::Man, side, position, taken@, d, e));
                assert forall|x: Position, dd: Direction|
                    cands@.contains((x, dd)) <==> (old(cands)@.contains((x, dd)) || (dd == d
                        && step_via(self@, Piece::Man, side, position, taken@, d, x))) by {
                    crate::route::lemma_seq_push_contains(old(cands)@, (e, d), (x, dd));
                    if dd == d && step_via(self@, Piece::Man, side, position, taken@, d, x) {
                        assert(x == e);
                    }
                }
            }
        } else {
            proof {
                assert forall|x: Position|
                    step_via(self@, Piece::Man, side, position, taken@, d, x) implies false by {
                    assert(x == e);
                }
            }
        }
    }

    /// Walks one ray from `position` and appends the king's capture
    /// candidate along it: the first occupied cell, when it holds a takable
    /// enemy piece not yet captured.
    fn king_capture_candidate(
        &self,
        position: Position,
        side: Side,
        taken: &Vec<Position>,
        d: Direction,
        cands: &mut Vec<(Position, Direction)>,
    )
        requires
            self.wf(),
            spec_in_board(position),
        ensures
            forall|e: Position, dd: Direction|
                final(cands)@.contains((e, dd)) <==> (old(cands)@.contains((e, dd)) || (dd == d
                    && step_via(self@, Piece::King, side, position, taken@, d, e))),
    {
        let ghost v = self@;
        let mut cur = position;
        let mut steps: i8 = 0;
        let mut cand: Option<Position> = None;
        loop
            invariant_except_break
                cand is None,
            invariant
                self.wf(),
                v == self@,
                spec_in_board(position),
                0 <= steps <= 7,
                spec_in_board(cur),
                cur.row as int == ray_row(position, d, steps as int),
                cur.column as int == ray_col(position, d, steps as int),
                forall|j: int|
                    1 <= j <= steps ==> in_board_rc(
                        ray_row(position, d, j),
                        #[trigger] ray_col(position, d, j),
                    ) && !v.occ_rc(ray_row(position, d, j), ray_col(position, d, j)),
            ensures
                forall|j: int|
                    1 <= j <= steps ==> in_board_rc(
                        ray_row(position, d, j),
                        #[trigger] ray_col(position, d, j),
                    ) && !v.occ_rc(ray_row(position, d, j), ray_col(position, d, j)),
                match cand {
                    Some(f) => {
                        &&& f.row as int == ray_row(position, d, steps as int + 1)
                        &&& f.column as int == ray_col(position, d, steps as int + 1)
                        &&& spec_in_board(f)
                        &&& v.occupied(f)
                        &&& steps as int + 1 <= 8
                    },
                    None => !in_board_rc(
                        ray_row(position, d, steps as int + 1),
                        ray_col(position, d, steps as int + 1),
                    ),
                },
            decreases 8 - steps,
        {
            let next = cur.next_diagonal(d);
            if !self.is_inside_board(next) {
                break ;
            }
            if !self.is_cell_empty(next) {
                cand = Some(next);
                break ;
            }
            proof {
                if steps as int + 1 >= 8 {
                    lemma_ray_eight_off(position, d);
                    assert(false);
                }
            }
            cur = next;
            steps = steps + 1;
        }
        let ghost sf = steps as int;
        match cand {
            Some(f) => {
                if !positions_contain(taken, f) && self.contains_takable_enemy_piece(f, d, side) {
                    cands.push((f, d));
                    proof {
                        assert(step_via(v, Piece::King, side, position, taken@, d, f));
                        assert forall|x: Position, dd: Direction|
                            cands@.contains((x, dd)) <==> (old(cands)@.contains((x, dd)) || (dd
                                == d && step_via(v, Piece::King, side, position, taken@, d, x))) by {
                            crate::route::lemma_seq_push_contains(old(cands)@, (f, d), (x, dd));
                            if dd == d && step_via(v, Piece::King, side, position, taken@, d, x) {
                                self.lemma_king_step_unique(position, side, taken@, d, x, sf, f);
                            }
                        }
                    }
                } else {
                    proof {
                        assert forall|x: Position|
                            step_via(v, Piece::King, side, position, taken@, d, x) implies false by {
                            self.lemma_king_step_unique(position, side, taken@, d, x, sf, f);
                        }
                    }
                }
            },
            None => {
                proof {
                    assert forall|x: Position|
                        step_via(v, Piece::King, side, position, taken@, d, x) implies false by {
                        let k = choose|k: int|
                            1 <= k <= 8 && x.row as int == ray_row(position, d, k) && x.column
                                as int == #[trigger] ray_col(position, d, k) && (forall|j: int|
                                1 <= j < k ==> !v.occ_rc(ray_row(position, d, j), ray_col(
                                position,
                                d,
                                j,
                            )));
                        assert(spec_in_board(x));
                        if k <= sf {
                            assert(!v.occ_rc(ray_row(position, d, k), ray_col(position, d, k)));
                            assert(pos_rc(ray_row(position, d, k), ray_col(position, d, k)) == x);
                            assert(false);
                        } else {
                            if k > sf + 1 {
                                lemma_ray_stays_off(position, d, sf + 1, k);
                            }
                            assert(!in_board_rc(ray_row(position, d, k), ray_col(position, d, k)));
                            assert(false);
                        }
                    }
                }
            },
        }
    }

    /// A king's capture step along `d` can only take the first occupied cell
    /// of the ray.
    proof fn lemma_king_step_unique(
        &self,
        position: Position,
        side: Side,
        taken: Seq<Position>,
        d: Direction,
        x: Position,
        sf: int,
        f: Position,
    )
        requires
            self.wf(),
            spec_in_board(position),
            step_via(self@, Piece::King, side, position, taken, d, x),
            forall|j: int|
                1 <= j <= sf ==> in_board_rc(ray_row(position, d, j), #[trigger] ray_col(position, d, j))
                    && !self@.occ_rc(ray_row(position, d, j), ray_col(position, d, j)),
            0 <= sf,
            f.row as int == ray_row(position, d, sf + 1),
            f.column as int == ray_col(position, d, sf + 1),
            spec_in_board(f),
            self@.occupied(f),
            sf + 1 <= 8,
        ensures
            x == f,
    {
        let v = self@;
        let k = choose|k: int|
            1 <= k <= 8 && x.row as int == ray_row(position, d, k) && x.column as int
                == #[trigger] ray_col(position, d, k) && (forall|j: int|
                1 <= j < k ==> !v.occ_rc(ray_row(position, d, j), ray_col(position, d, j)));
        assert(spec_in_board(x));
        if k <= sf {
            assert(!v.occ_rc(ray_row(position, d, k), ray_col(position, d, k)));
            assert(pos_rc(ray_row(position, d, k), ray_col(position, d, k)) == x);
            assert(false);
        }
        if k > sf + 1 {
            assert(!v.occ_rc(ray_row(position, d, sf + 1), ray_col(position, d, sf + 1)));
            assert(pos_rc(ray_row(position, d, sf + 1), ray_col(position, d, sf + 1)) == f);
            assert(false);
        }
        assert(x.row == f.row && x.column == f.column);
    }

    /// The capture candidates of `piece` of `side` standing on `position`:
    /// every `(enemy cell, direction)` pair it may take next.
    fn capture_candidates(
        &self,
        position: Position,
        piece: Piece,
        side: Side,
        taken: &Vec<Position>,
    ) -> (cands: Vec<(Position, Direction)>)
        requires
            self.wf(),
            spec_in_board(position),
        ensures
            forall|e: Position, d: Direction| #[trigger]
                cands@.contains((e, d)) <==> step_via(self@, piece, side, position, taken@, d, e),
    {
        let mut cands: Vec<(Position, Direction)> = Vec::new();
        match piece {
            Piece::Man => {
                self.man_capture_candidate(position, side, taken, Direction::LeftUp, &mut cands);
                self.man_capture_candidate(position, side, taken, Direction::RightUp, &mut cands);
                self.man_capture_candidate(position, side, taken, Direction::LeftDown, &mut cands);
                self.man_capture_candidate(position, side, taken, Direction::RightDown, &mut cands);
            },
            Piece::King => {
                self.king_capture_candidate(position, side, taken, Direction::LeftUp, &mut cands);
                self.king_capture_candidate(position, side, taken, Direction::RightUp, &mut cands);
                self.king_capture_candidate(position, side, taken, Direction::LeftDown, &mut cands);
                self.king_capture_candidate(
                    position,
                    side,
                    taken,
                    Direction::RightDown,
                    &mut cands,
                );
            },
        }
        cands
    }

    /// The recursive capture search. Resuming from `position` with `taken`
    /// already captured, it appends one route per chain that extends
    /// `taken`, leaving the routes already collected untouched.
    fn get_taking_routes_rec(
        &self,
        position: Position,
        piece: Piece,
        side: Side,
        taken: &Vec<Position>,
        routes: &mut Vec<Route>,
    )
        requires
            self.wf(),
            spec_in_board(position),
            taken@.no_duplicates(),
            forall|i: int|
                0 <= i < taken@.len() ==> self@.pieces_of(side.spec_opposite()).contains_key(
                    #[trigger] taken@[i],
                ),
        ensures
            forall|rm: RouteModel| #[trigger]
                route_views(final(routes)@).contains(rm) <==> (route_views(old(routes)@).contains(
                    rm,
                ) || extension_ok(self@, piece, side, position, taken@, rm)),
        decreases self@.pieces_of(side.spec_opposite()).len() - taken@.len(),
    {
        let ghost v = self@;
        proof {
            lemma_taken_bound(v, side, taken@);
        }
        let cands = self.capture_candidates(position, piece, side, taken);
        let mut idx: usize = 0;
        while idx < cands.len()
            invariant
                self.wf(),
                v == self@,
                spec_in_board(position),
                taken@.no_duplicates(),
                forall|i: int|
                    0 <= i < taken@.len() ==> v.pieces_of(side.spec_opposite()).contains_key(
                        #[trigger] taken@[i],
                    ),
                forall|e: Position, d: Direction| #[trigger]
                    cands@.contains((e, d)) <==> step_via(v, piece, side, position, taken@, d, e),
                idx <= cands@.len(),
                forall|rm: RouteModel| #[trigger]
                    route_views(routes@).contains(rm) <==> (route_views(old(routes)@).contains(rm)
                        || exists|j: int|
                        0 <= j < idx && step_contribution(
                            v,
                            piece,
                            side,
                            taken@,
                            (#[trigger] cands@[j]).0,
                            cands@[j].1,
                            rm,
                        )),
            decreases cands@.len() - idx,
        {
            let pair = cands[idx];
            let e = pair.0;
            let d = pair.1;
            proof {
                assert(cands@[idx as int] == (e, d));
                assert(cands@.contains((e, d)));
                assert(step_via(v, piece, side, position, taken@, d, e));
                assert(v.pieces_of(side.spec_opposite()).contains_key(e));
                assert(spec_in_board(e));
            }
            let landing = e.next_diagonal(d);
            let mut new_taken = copy_positions(taken);
            new_taken.push(e);
            proof {
                assert(new_taken@ == taken@.push(e));
                assert(landing == landing_of(e, d));
                assert(spec_in_board(landing));
                assert forall|a: int, b: int|
                    0 <= a < b < new_taken@.len() implies new_taken@[a] != new_taken@[b] by {
                    if b == new_taken@.len() - 1 {
                        if new_taken@[a] == e {
                            assert(taken@[a] == e);
                            assert(taken@.contains(e));
                        }
                    }
                }
                assert(new_taken@.no_duplicates());
                lemma_taken_bound(v, side, new_taken@);
            }
            let ghost before_call = routes@;
            self.get_taking_routes_rec(landing, piece, side, &new_taken, routes);
            let ghost mid = routes@;
            routes.push(Route::Taking(landing, new_taken));
            proof {
                let rt = routes@.last();
                assert(routes@ == mid.push(rt));
                assert(rt@ == RouteModel::Taking(landing_of(e, d), taken@.push(e)));
                assert forall|rm: RouteModel| #[trigger]
                    route_views(routes@).contains(rm) <==> (route_views(old(routes)@).contains(rm)
                        || exists|j: int|
                        0 <= j < idx + 1 && step_contribution(
                            v,
                            piece,
                            side,
                            taken@,
                            (#[trigger] cands@[j]).0,
                            cands@[j].1,
                            rm,
                        )) by {
                    crate::route::lemma_route_views_push(mid, rt, rm);
                    if route_views(routes@).contains(rm) {
                        if route_views(mid).contains(rm) {
                            if !route_views(old(routes)@).contains(rm) {
                                if extension_ok(v, piece, side, landing_of(e, d), taken@.push(e), rm) {
                                    assert(step_contribution(v, piece, side, taken@, e, d, rm));
                                    assert(cands@[idx as int].0 == e && cands@[idx as int].1 == d);
                                } else {
                                    let j = choose|j: int|
                                        0 <= j < idx && step_contribution(
                                            v,
                                            piece,
                                            side,
                                            taken@,
                                            (#[trigger] cands@[j]).0,
                                            cands@[j].1,
                                            rm,
                                        );
                                    assert(0 <= j < idx + 1);
                                }
                            }
                        } else {
                            assert(rm == RouteModel::Taking(landing_of(e, d), taken@.push(e)));
                            assert(step_contribution(v, piece, side, taken@, e, d, rm));
                            assert(cands@[idx as int].0 == e && cands@[idx as int].1 == d);
                        }
                    }
                    if exists|j: int|
                        0 <= j < idx + 1 && step_contribution(
                            v,
                            piece,
                            side,
                            taken@,
                            (#[trigger] cands@[j]).0,
                            cands@[j].1,
                            rm,
                        ) {
                        let j = choose|j: int|
                            0 <= j < idx + 1 && step_contribution(
                                v,
                                piece,
                                side,
                                taken@,
                                (#[trigger] cands@[j]).0,
                                cands@[j].1,
                                rm,
                            );
                        if j < idx {
                            assert(route_views(mid).contains(rm));
                        } else {
                            assert(cands@[j] == (e, d));
                            if rm == RouteModel::Taking(landing_of(e, d), taken@.push(e)) {
                                assert(rt@ == rm);
                            } else {
                                assert(extension_ok(
                                    v,
                                    piece,
                                    side,
                                    landing_of(e, d),
                                    taken@.push(e),
                                    rm,
                                ));
                                assert(route_views(mid).contains(rm));
                            }
                        }
                        assert(route_views(routes@).contains(rm));
                    }
                }
            }
            idx = idx + 1;
        }
        proof {
            assert forall|rm: RouteModel| #[trigger]
                route_views(routes@).contains(rm) <==> (route_views(old(routes)@).contains(rm)
                    || extension_ok(v, piece, side, position, taken@, rm)) by {
                lemma_extension_unfold(v, piece, side, position, taken@, rm);
                if route_views(routes@).contains(rm) && !route_views(old(routes)@).contains(rm) {
                    let j = choose|j: int|
                        0 <= j < idx && step_contribution(
                            v,
                            piece,
                            side,
                            taken@,
                            (#[trigger] cands@[j]).0,
                            cands@[j].1,
                            rm,
                        );
                    let e = cands@[j].0;
                    let d = cands@[j].1;
                    assert(cands@[j] == (e, d));
                    assert(cands@.contains((e, d)));
                    assert(step_via(v, piece, side, position, taken@, d, e));
                    assert(extension_ok(v, piece, side, position, taken@, rm));
                }
                if extension_ok(v, piece, side, position, taken@, rm) {
                    let (d, e) = choose|d: Direction, e: Position|
                        #[trigger] step_via(v, piece, side, position, taken@, d, e)
                            && step_contribution(v, piece, side, taken@, e, d, rm);
                    assert(cands@.contains((e, d)));
                    let j = choose|j: int| 0 <= j < cands@.len() && cands@[j] == (e, d);
                    assert(step_contribution(
                        v,
                        piece,
                        side,
                        taken@,
                        cands@[j].0,
                        cands@[j].1,
                        rm,
                    ));
                    assert(route_views(routes@).contains(rm));
                }
            }
        }
    }

    /// Every capture route of `piece` of `side` standing on `position`: one
    /// route per reachable landing cell, each carrying the ordered list of
    /// enemy cells captured to reach it. Shorter stops of a longer chain are
    /// separate routes.
    pub fn get_taking_routes(&self, position: Position, piece: Piece, side: Side) -> (r: Vec<
        Route,
    >)
        requires
            self.wf(),
            spec_in_board(position),
        ensures
            forall|rm: RouteModel| #[trigger]
                route_views(r@).contains(rm) <==> taking_route_ok(
                    self@,
                    position,
                    piece,
                    side,
                    rm,
                ),
    {
        let mut routes: Vec<Route> = Vec::new();
        let taken: Vec<Position> = Vec::new();
        self.get_taking_routes_rec(position, piece, side, &taken, &mut routes);
        proof {
            assert(taken@ =~= Seq::<Position>::empty());
        }
        routes
    }

    /// Every legal route of `piece` standing on `position` for the side
    /// whose move it is: all plain movements and all capture chains.
    /// Movement routes are returned alongside capture routes even when a
    /// capture exists; enforcing a mandatory-capture policy is left to the
    /// caller.
    pub fn get_available_routes(&self, position: Position, piece: Piece) -> (r: Vec<Route>)
        requires
            self.wf(),
            spec_in_board(position),
        ensures
            forall|rm: RouteModel| #[trigger]
                route_views(r@).contains(rm) <==> (movement_route_ok(
                    self@,
                    position,
                    piece,
                    self@.turn,
                    rm,
                ) || taking_route_ok(self@, position, piece, self@.turn, rm)),
    {
        let side = self.current_move;
        let mut total_routes = self.get_movement_routes(position, piece, side);
        let ghost movement = total_routes@;
        let mut taking_routes = self.get_taking_routes(position, piece, side);
        let ghost taking = taking_routes@;
        total_routes.append(&mut taking_routes);
        proof {
            assert forall|rm: RouteModel| #[trigger]
                route_views(total_routes@).contains(rm) <==> (movement_route_ok(
                    self@,
                    position,
                    piece,
                    self@.turn,
                    rm,
                ) || taking_route_ok(self@, position, piece, self@.turn, rm)) by {
                crate::route::lemma_route_views_concat(movement, taking, rm);
            }
        }
        total_routes
    }

    /// The first route of `routes` whose destination is `position`, if one
    /// exists.
    pub fn get_route_containing_position(&self, routes: &Vec<Route>, position: Position) -> (r:
        Option<Route>)
        ensures
            match r {
                Some(rt) => exists|i: int|
                    0 <= i < routes@.len() && (#[trigger] routes@[i])@ == rt@ && rt@.dest()
                        == position && (forall|j: int|
                        0 <= j < i ==> (#[trigger] routes@[j])@.dest() != position),
                None => forall|i: int|
                    0 <= i < routes@.len() ==> (#[trigger] routes@[i])@.dest() != position,
            },
    {
        let mut i: usize = 0;
        while i < routes.len()
            invariant
                i <= routes@.len(),
                forall|j: int| 0 <= j < i ==> (#[trigger] routes@[j])@.dest() != position,
            decreases routes@.len() - i,
        {
            if routes[i].position() == position {
                let rt = routes[i].clone();
                proof {
                    assert(routes@[i as int]@ == rt@);
                }
                return Some(rt);
            }
            i = i + 1;
        }
        None
    }

    /// Applies one plain move for `side`: relocates the piece from `from`
    /// to `to`, then either promotes it (a man that reached the opposing
    /// home row keeps the turn) or passes the move.
    pub fn apply_move_piece(&mut self, side: Side, from: Position, to: Position)
        requires
            old(self).wf(),
            old(self)@.pieces_of(side).contains_key(from),
            spec_in_board(to),
            dark_cell(to),
            to != from ==> !old(self)@.occupied(to),
        ensures
            final(self).wf(),
            final(self)@ == spec_apply_move(old(self)@, side, from, to),
    {
        self.move_piece(side, from, to);
        if self.is_turning_to_king_condition_satisfied(side, to) {
            self.turn_man_to_king(side, to);
        } else {
            self.pass_the_move();
        }
    }

    /// Applies one capture for `side`: removes the taken enemy pieces,
    /// relocates the capturing piece from `from` to `to`, then promotes or
    /// passes the move as for a plain move. Returns whether the game has
    /// ended.
    pub fn apply_take_pieces(
        &mut self,
        side: Side,
        from: Position,
        to: Position,
        taken_pieces_positions: &Vec<Position>,
    ) -> (ended: bool)
        requires
            old(self).wf(),
            old(self)@.pieces_of(side).contains_key(from),
            spec_in_board(to),
            dark_cell(to),
            to != from ==> !spec_remove_pieces(
                old(self)@,
                taken_pieces_positions@,
                side.spec_opposite(),
            ).occupied(to),
        ensures
            final(self).wf(),
            final(self)@ == spec_apply_taking(
                old(self)@,
                side,
                from,
                to,
                taken_pieces_positions@,
            ),
            ended == (final(self)@.white.len() == 0 || final(self)@.black.len() == 0),
    {
        self.remove_pieces(taken_pieces_positions, side.opposite());
        self.move_piece(side, from, to);
        if self.is_turning_to_king_condition_satisfied(side, to) {
            self.turn_man_to_king(side, to);
        } else {
            self.pass_the_move();
        }
        self.is_game_ended()
    }

    /// A copy of the whole board state.
    pub fn duplicate(&self) -> (r: GameData)
        ensures
            r@ == self@,
            self.wf() ==> r.wf(),
    {
        GameData {
            white_pieces: self.white_pieces.duplicate(),
            black_pieces: self.black_pieces.duplicate(),
            current_move: self.current_move,
        }
    }

    /// Passes the move to the opposing side.
    pub fn pass_the_move(&mut self)
        requires
            old(self).wf(),
        ensures
            final(self).wf(),
            final(self)@ == spec_pass_the_move(old(self)@),
    {
        self.current_move = self.current_move.opposite();
    }
}

/// Every movement route of a man goes to an empty on-board cell exactly one
/// diagonal step in its side's forward direction. Stated for men away from
/// the opposing home row, where no promotion interferes.
pub proof fn lemma_man_movement_routes(
    v: BoardModel,
    p: Position,
    side: Side,
    rm: RouteModel,
)
    requires
        v.wf(),
        p.row as int != home_row(side.spec_opposite()),
        movement_route_ok(v, p, Piece::Man, side, rm),
    ensures
        (rm matches RouteModel::Movement(q) && {
            &&& spec_in_board(q)
            &&& !v.occupied(q)
            &&& q.row as int == (match side {
                Side::White => p.row - 1,
                Side::Black => p.row + 1,
            })
            &&& (q.column as int == p.column - 1 || q.column as int == p.column + 1)
        }),
{
}

/// A king's movement routes never pass the first occupied cell of a ray:
/// along the route's own ray, every cell strictly before the destination is
/// free of pieces.
pub proof fn lemma_king_movement_blocked(
    v: BoardModel,
    p: Position,
    side: Side,
    q: Position,
    d: Direction,
    k: int,
)
    requires
        v.wf(),
        movement_route_ok(v, p, Piece::King, side, RouteModel::Movement(q)),
        1 <= k,
        q.row as int == ray_row(p, d, k),
        q.column as int == ray_col(p, d, k),
    ensures
        forall|j: int| 1 <= j < k ==> !v.occ_rc(ray_row(p, d, j), #[trigger] ray_col(p, d, j)),
{
    let (d2, k2) = choose|d2: Direction, k2: int| king_move_via(v, p, q, d2, k2);
    assert(k2 == k && d2 == d);
}

/// Wherever a first capture is available and a second capture is available
/// from its landing cell, the returned routes include both the one-capture
/// route and the two-capture route extending it.
pub proof fn lemma_capture_chain_extension(
    v: BoardModel,
    p: Position,
    piece: Piece,
    side: Side,
    d1: Direction,
    e1: Position,
    d2: Direction,
    e2: Position,
)
    requires
        step_via(v, piece, side, p, Seq::empty(), d1, e1),
        step_via(v, piece, side, landing_of(e1, d1), seq![e1], d2, e2),
    ensures
        taking_route_ok(v, p, piece, side, RouteModel::Taking(landing_of(e1, d1), seq![e1])),
        taking_route_ok(v, p, piece, side, RouteModel::Taking(landing_of(e2, d2), seq![e1, e2])),
{
    let empty = Seq::<Position>::empty();
    let one = seq![e1];
    let two = seq![e1, e2];
    assert(one.take(0) =~= empty);
    assert(one.skip(0) =~= one);
    assert(two.take(0) =~= empty);
    assert(two.skip(0) =~= two);
    assert(one[0] == e1);
    assert(step_via(v, piece, side, p, empty, d1, one[0]));
    assert(chain_ok(v, piece, side, p, empty, one, landing_of(e1, d1)));
    assert(two.skip(1) =~= seq![e2]);
    assert(empty.push(e1) =~= one);
    assert(seq![e2][0] == e2);
    assert(step_via(v, piece, side, landing_of(e1, d1), one, d2, seq![e2][0]));
    assert(chain_ok(v, piece, side, landing_of(e1, d1), one, seq![e2], landing_of(e2, d2)));
    assert(two[0] == e1);
    assert(step_via(v, piece, side, p, empty, d1, two[0]));
    assert(chain_ok(
        v,
        piece,
        side,
        landing_of(two[0], d1),
        empty.push(two[0]),
        two.skip(1),
        landing_of(e2, d2),
    ));
    assert(chain_ok(v, piece, side, p, empty, two, landing_of(e2, d2)));
}

/// No cell is ever held by both sides at once.
pub proof fn lemma_sides_disjoint(v: BoardModel, p: Position)
    requires
        v.wf(),
    ensures
        !(v.white.contains_key(p) && v.black.contains_key(p)),
{
}

/// Promotion is idempotent: a king is never due promotion, and promoting a
/// cell that already holds a king leaves the board unchanged.
pub proof fn lemma_promotion_idempotent(v: BoardModel, side: Side, p: Position)
    requires
        v.pieces_of(side).contains_key(p),
        v.pieces_of(side)[p] == Piece::King,
    ensures
        !spec_promotion_due(v, side, p),
        spec_turn_man_to_king(v, side, p) == v,
{
    assert(v.pieces_of(side).insert(p, Piece::King) =~= v.pieces_of(side));
    assert(spec_turn_man_to_king(v, side, p) =~= v);
}

impl Clone for GameData {
    /// The copy holds the same pieces on the same cells, with the same side
    /// to move.
    fn clone(&self) -> (r: Self)
        ensures
            r@ == self@,
            self.wf() ==> r.wf(),
    {
        self.duplicate()
    }
}

impl Default for GameData {
    /// The standard starting position: twelve men per side on the dark cells
    /// of the three rows nearest each home edge, White to move.
    fn default() -> (r: Self)
        ensures
            r.wf(),
            r@.turn == Side::White,
            r@.white == initial_pieces(Side::White),
            r@.black == initial_pieces(Side::Black),
    {
        let white_pieces = initial_map_for(Side::White);
        let black_pieces = initial_map_for(Side::Black);
        proof {
            white_pieces.lemma_finite();
            black_pieces.lemma_finite();
        }
        GameData { white_pieces, black_pieces, current_move: Side::default() }
    }
}

} // verus!
