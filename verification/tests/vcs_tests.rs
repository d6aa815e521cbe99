use checkers::game_data::GameData;
use checkers::piece::Piece;
use checkers::position::Position;
use checkers::side::Side;
use checkers::vcs::ser::VcsSer;
use checkers::vcs::{Branch, Vcs};

fn pos(row: i8, column: i8) -> Position {
    Position { row, column }
}

fn boards_equal(a: &GameData, b: &GameData) -> bool {
    if a.current_move() != b.current_move() {
        return false;
    }
    for row in 0..8 {
        for column in 0..8 {
            let p = pos(row, column);
            if a.get_piece(Side::White, p) != b.get_piece(Side::White, p) {
                return false;
            }
            if a.get_piece(Side::Black, p) != b.get_piece(Side::Black, p) {
                return false;
            }
        }
    }
    true
}

#[test]
fn fresh_history() {
    let vcs = Vcs::default();
    assert_eq!(vcs.current_branch_name(), "default".to_string());
    let names = vcs.branch_names();
    assert_eq!(names, vec!["default".to_string()]);
    assert!(vcs.get_current_state().is_none());
    assert!(vcs.current_commit_header().is_none());
    assert_eq!(vcs.commit_headers().len(), 0);
    // the default branch points at the absent current commit
    assert!(vcs.is_commit_creation_allowed());
}

#[test]
fn commit_round_trip() {
    let mut vcs = Vcs::default();
    let mut board = GameData::default();
    board.move_piece(Side::White, pos(5, 2), pos(4, 3));
    assert!(vcs.is_commit_creation_allowed());
    vcs.create_commit("after the first move".to_string(), board.clone());
    let restored = vcs.switch_to_commit(0);
    assert!(boards_equal(&restored, &board));
}

#[test]
fn snapshots_are_deep_copies() {
    let mut vcs = Vcs::default();
    let mut board = GameData::default();
    vcs.create_commit("start".to_string(), board.clone());
    // mutating the live board does not touch the stored snapshot
    board.move_piece(Side::White, pos(5, 2), pos(4, 3));
    let stored = vcs.switch_to_commit(0);
    assert_eq!(stored.get_piece(Side::White, pos(5, 2)), Some(Piece::Man));
    assert_eq!(stored.get_piece(Side::White, pos(4, 3)), None);
}

#[test]
fn policy_forbids_commit_in_mid_history() {
    let mut vcs = Vcs::default();
    vcs.create_commit("first".to_string(), GameData::default());
    vcs.create_commit("second".to_string(), GameData::default());
    // checking out the non-tip commit 0 detaches from every branch tip
    let _ = vcs.switch_to_commit(0);
    assert!(!vcs.is_commit_creation_allowed());
    // an explicit branch from that point allows committing again
    vcs.create_branch("rescue".to_string());
    assert!(vcs.is_commit_creation_allowed());
    vcs.create_commit("third".to_string(), GameData::default());
    assert_eq!(vcs.current_branch_name(), "rescue".to_string());
}

#[test]
fn branch_without_snapshot_returns_nothing() {
    let mut vcs = Vcs::default();
    vcs.create_branch("b1".to_string());
    let state = vcs.switch_to_branch("b1".to_string());
    assert!(state.is_none());
}

#[test]
fn switch_to_branch_restores_its_tip() {
    let mut vcs = Vcs::default();
    let board0 = GameData::default();
    vcs.create_commit("start".to_string(), board0.clone());
    vcs.create_branch("b1".to_string());
    let mut board1 = GameData::default();
    board1.move_piece(Side::White, pos(5, 2), pos(4, 3));
    vcs.create_commit("moved".to_string(), board1.clone());
    // back to the first branch, whose tip is still the first commit
    let restored = vcs.switch_to_branch("default".to_string()).unwrap();
    assert!(boards_equal(&restored, &board0));
    assert_eq!(vcs.current_branch_name(), "default".to_string());
    // and forward again
    let restored1 = vcs.switch_to_branch("b1".to_string()).unwrap();
    assert!(boards_equal(&restored1, &board1));
}

#[test]
fn branch_names_last_write_wins() {
    let mut vcs = Vcs::default();
    vcs.create_branch("work".to_string());
    vcs.create_commit("one".to_string(), GameData::default());
    vcs.create_branch("work".to_string());
    let names = vcs.branch_names();
    assert_eq!(names.len(), 2);
    assert!(names.contains(&"default".to_string()));
    assert!(names.contains(&"work".to_string()));
}

#[test]
fn commit_headers_are_tip_first() {
    let mut vcs = Vcs::default();
    vcs.create_commit("first".to_string(), GameData::default());
    vcs.create_commit("second".to_string(), GameData::default());
    let headers = vcs.commit_headers();
    assert_eq!(headers, vec!["1-second".to_string(), "0-first".to_string()]);
    assert_eq!(vcs.current_commit_header(), Some("1-second".to_string()));
    // the id can be parsed back from the header
    let header = vcs.current_commit_header().unwrap();
    let id: isize = header.split_once('-').unwrap().0.parse().unwrap();
    assert_eq!(id, 1);
}

#[test]
fn headers_follow_the_branch_not_the_checkout() {
    let mut vcs = Vcs::default();
    vcs.create_commit("first".to_string(), GameData::default());
    vcs.create_commit("second".to_string(), GameData::default());
    let _ = vcs.switch_to_commit(0);
    // the branch tip is still the second commit
    let headers = vcs.commit_headers();
    assert_eq!(headers.len(), 2);
    assert_eq!(vcs.current_commit_header(), Some("0-first".to_string()));
}

#[test]
fn get_current_state_follows_checkout() {
    let mut vcs = Vcs::default();
    let board = GameData::default();
    vcs.create_commit("start".to_string(), board.clone());
    let current = vcs.get_current_state().unwrap();
    assert!(boards_equal(&current, &board));
}

#[test]
fn commit_accessors() {
    let mut vcs = Vcs::default();
    vcs.create_commit("first".to_string(), GameData::default());
    let c = vcs.get_commit(0);
    assert_eq!(c.id, 0);
    assert_eq!(c.parent_commit_id, None);
    assert_eq!(c.message, "first".to_string());
    let cur = vcs.get_current_commit().unwrap();
    assert_eq!(cur.id, 0);
    let b = vcs.get_current_branch();
    assert_eq!(b.name, "default".to_string());
    assert_eq!(b.commit_id, Some(0));
}

#[test]
fn branch_new_and_duplicate() {
    let b = Branch::new("main", Some(3));
    assert_eq!(b.name, "main".to_string());
    assert_eq!(b.commit_id, Some(3));
    let c = b.duplicate();
    assert_eq!(c.name, "main".to_string());
    assert_eq!(c.commit_id, Some(3));
}

#[test]
fn serial_form_mirrors_the_state() {
    let mut vcs = Vcs::default();
    vcs.create_commit("first".to_string(), GameData::default());
    vcs.create_branch("b1".to_string());
    let ser = VcsSer::from_vcs(&vcs);
    assert_eq!(ser.commits.len(), 1);
    assert_eq!(ser.commits[0].id, 0);
    assert_eq!(ser.commits[0].parent_commit_id, None);
    assert_eq!(ser.commits[0].message, "first".to_string());
    assert_eq!(ser.branches.len(), 2);
    assert_eq!(ser.current_branch_name, "b1".to_string());
    assert_eq!(ser.current_commit_id, Some(0));
    assert_eq!(ser.next_commit_id, 1);
}
