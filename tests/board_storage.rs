use chess::board::{do_move, read_board, standard_board, write_board, Board, Loc};
use chess::types::{Direction, Movement, PawnState, Space};

fn empty() -> Board {
    [[Space::Open; 8]; 8]
}

#[test]
fn write_then_read_every_square() {
    let mut b = empty();
    for f in 1..9 {
        for r in 1..9 {
            let s = Space::Knight(f % 2 == 0);
            assert!(write_board(&mut b, [f, r], s));
            assert_eq!(read_board(&b, [f, r]), Some(s));
        }
    }
}

#[test]
fn write_leaves_other_squares() {
    let mut b = standard_board();
    let before = b;
    assert!(write_board(&mut b, [3, 4], Space::Queen(true)));
    for f in 1..9 {
        for r in 1..9 {
            if (f, r) != (3, 4) {
                assert_eq!(read_board(&b, [f, r]), read_board(&before, [f, r]));
            }
        }
    }
}

#[test]
fn off_board_read_and_write() {
    let mut b = standard_board();
    let before = b;
    let outside: [Loc; 8] = [[0, 1], [9, 1], [1, 0], [1, 9], [-5, 3], [3, isize::MAX], [isize::MIN, 4], [0, 0]];
    for loc in outside {
        assert_eq!(read_board(&b, loc), None);
        assert!(!write_board(&mut b, loc, Space::Queen(true)));
        assert_eq!(b, before);
    }
}

#[test]
fn standard_board_layout() {
    let b = standard_board();
    assert_eq!(read_board(&b, [5, 1]), Some(Space::King(false, false)));
    assert_eq!(read_board(&b, [4, 1]), Some(Space::Queen(false)));
    assert_eq!(read_board(&b, [1, 8]), Some(Space::Rook(true, false)));
    assert_eq!(read_board(&b, [7, 8]), Some(Space::Knight(true)));
    assert_eq!(read_board(&b, [3, 1]), Some(Space::Bishop(false)));
    assert_eq!(read_board(&b, [2, 2]), Some(Space::Pawn(false, PawnState::NotMoved)));
    assert_eq!(read_board(&b, [8, 7]), Some(Space::Pawn(true, PawnState::NotMoved)));
    assert_eq!(read_board(&b, [4, 5]), Some(Space::Open));
}

#[test]
fn is_white_reports_side() {
    assert!(Space::Pawn(true, PawnState::Moved).is_white());
    assert!(!Space::Rook(false, true).is_white());
    assert!(Space::King(true, false).is_white());
}

#[test]
fn space_letters() {
    assert_eq!(char::from(Space::Pawn(true, PawnState::NotMoved)), 'P');
    assert_eq!(char::from(Space::Rook(false, false)), 'R');
    assert_eq!(char::from(Space::Knight(true)), 'N');
    assert_eq!(char::from(Space::Bishop(true)), 'B');
    assert_eq!(char::from(Space::Queen(false)), 'Q');
    assert_eq!(char::from(Space::King(false, true)), 'K');
    assert_eq!(char::from(Space::Open), ' ');
}

#[test]
fn translate_each_direction() {
    assert_eq!(Direction::North.translate([4, 4], 2), [4, 6]);
    assert_eq!(Direction::South.translate([4, 4], 3), [4, 1]);
    assert_eq!(Direction::East.translate([4, 4], 1), [5, 4]);
    assert_eq!(Direction::West.translate([4, 4], 4), [0, 4]);
    assert_eq!(Direction::NW.translate([4, 4], 1), [3, 5]);
    assert_eq!(Direction::NE.translate([1, 1], 2), [3, 3]);
    assert_eq!(Direction::SW.translate([4, 4], 5), [-1, -1]);
    assert_eq!(Direction::SE.translate([4, 4], 2), [6, 2]);
}

#[test]
fn do_move_plain_and_capture() {
    let mut b = empty();
    write_board(&mut b, [2, 2], Space::Pawn(false, PawnState::PrevSkipped));
    write_board(&mut b, [3, 3], Space::Bishop(true));
    let p = Space::Pawn(false, PawnState::PrevSkipped);
    assert!(do_move(&mut b, [2, 2], p, [3, 3], Movement::Enemy));
    assert_eq!(read_board(&b, [3, 3]), Some(Space::Pawn(false, PawnState::Moved)));
    assert_eq!(read_board(&b, [2, 2]), Some(Space::Open));

    write_board(&mut b, [8, 8], Space::Rook(true, false));
    assert!(do_move(&mut b, [8, 8], Space::Rook(true, false), [8, 5], Movement::Empty));
    assert_eq!(read_board(&b, [8, 5]), Some(Space::Rook(true, true)));

    write_board(&mut b, [1, 8], Space::King(true, false));
    assert!(do_move(&mut b, [1, 8], Space::King(true, false), [1, 7], Movement::Empty));
    assert_eq!(read_board(&b, [1, 7]), Some(Space::King(true, true)));

    write_board(&mut b, [6, 6], Space::Knight(false));
    assert!(do_move(&mut b, [6, 6], Space::Knight(false), [7, 8], Movement::Empty));
    assert_eq!(read_board(&b, [7, 8]), Some(Space::Knight(false)));
}

#[test]
fn do_move_pawn_skip() {
    let mut b = standard_board();
    let p = Space::Pawn(true, PawnState::NotMoved);
    assert!(do_move(&mut b, [3, 7], p, [3, 5], Movement::PawnSkip));
    assert_eq!(read_board(&b, [3, 5]), Some(Space::Pawn(true, PawnState::PrevSkipped)));
    assert_eq!(read_board(&b, [3, 7]), Some(Space::Open));
}

#[test]
fn do_move_refusals_leave_board() {
    let mut b = standard_board();
    let before = b;
    let n = Space::Knight(false);
    assert!(!do_move(&mut b, [2, 1], n, [3, 3], Movement::Blocked));
    assert!(!do_move(&mut b, [2, 1], n, [3, 3], Movement::Check));
    assert!(!do_move(&mut b, [2, 1], n, [2, 3], Movement::PawnSkip));
    assert!(!do_move(&mut b, [2, 1], n, [2, 3], Movement::KingSide));
    assert!(!do_move(&mut b, [4, 4], Space::Open, [4, 5], Movement::Empty));
    assert!(!do_move(&mut b, [2, 1], n, [0, 3], Movement::Empty));
    assert!(!do_move(&mut b, [2, 9], n, [2, 3], Movement::Empty));
    let k = Space::King(false, false);
    assert!(!do_move(&mut b, [5, 1], k, [6, 1], Movement::KingSide));
    assert!(!do_move(&mut b, [8, 1], k, [10, 1], Movement::KingSide));
    assert_eq!(b, before);
}

#[test]
fn do_move_castles_both_ways() {
    let mut b = empty();
    write_board(&mut b, [5, 1], Space::King(false, false));
    write_board(&mut b, [8, 1], Space::Rook(false, false));
    assert!(do_move(&mut b, [5, 1], Space::King(false, false), [7, 1], Movement::KingSide));
    assert_eq!(read_board(&b, [7, 1]), Some(Space::King(false, true)));
    assert_eq!(read_board(&b, [6, 1]), Some(Space::Rook(false, true)));
    assert_eq!(read_board(&b, [8, 1]), Some(Space::Open));
    assert_eq!(read_board(&b, [5, 1]), Some(Space::Open));

    let mut b = empty();
    write_board(&mut b, [5, 8], Space::King(true, false));
    write_board(&mut b, [1, 8], Space::Rook(true, false));
    assert!(do_move(&mut b, [5, 8], Space::King(true, false), [3, 8], Movement::QueenSide));
    assert_eq!(read_board(&b, [3, 8]), Some(Space::King(true, true)));
    assert_eq!(read_board(&b, [4, 8]), Some(Space::Rook(true, true)));
    assert_eq!(read_board(&b, [1, 8]), Some(Space::Open));
    assert_eq!(read_board(&b, [5, 8]), Some(Space::Open));
}
