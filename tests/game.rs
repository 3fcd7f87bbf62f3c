use chess::board::{move_piece, read_board, standard_board, write_board, Board, Loc};
use chess::check::{get_king, in_check, is_check, is_checkmate};
use chess::state::{act, action_for, bpvc, Action, Key, UserState};
use chess::types::{PawnState, Space};

fn empty() -> Board {
    [[Space::Open; 8]; 8]
}

fn with(pieces: &[(Loc, Space)]) -> Board {
    let mut b = empty();
    for (loc, s) in pieces {
        assert!(write_board(&mut b, *loc, *s));
    }
    b
}

#[test]
fn start_is_not_checkmate() {
    let b = standard_board();
    assert!(!is_checkmate(&b, true));
    assert!(!is_checkmate(&b, false));
    assert!(!in_check(&b, true));
    assert!(!in_check(&b, false));
}

#[test]
fn pawn_double_step_from_start() {
    let mut b = standard_board();
    assert!(move_piece(&mut b, [5, 2], [5, 4]));
    assert_eq!(read_board(&b, [5, 4]), Some(Space::Pawn(false, PawnState::PrevSkipped)));
    assert_eq!(read_board(&b, [5, 2]), Some(Space::Open));
    assert!(!in_check(&b, true));
    assert!(!in_check(&b, false));
    assert!(!is_check(&b, [5, 1], false));
    assert!(!is_check(&b, [5, 8], true));

    assert!(move_piece(&mut b, [4, 7], [4, 5]));
    assert_eq!(read_board(&b, [4, 5]), Some(Space::Pawn(true, PawnState::PrevSkipped)));
    assert!(!in_check(&b, true));
    assert!(!in_check(&b, false));
}

#[test]
fn single_step_marks_pawn_moved() {
    let mut b = standard_board();
    assert!(move_piece(&mut b, [1, 7], [1, 6]));
    assert_eq!(read_board(&b, [1, 6]), Some(Space::Pawn(true, PawnState::Moved)));
    assert!(!move_piece(&mut b, [1, 6], [1, 4]));
}

fn cornered() -> Board {
    with(&[
        ([1, 1], Space::King(false, true)),
        ([8, 1], Space::Rook(true, true)),
        ([8, 2], Space::Queen(true)),
        ([8, 8], Space::King(true, true)),
    ])
}

#[test]
fn cornered_king_is_checkmated() {
    let b = cornered();
    assert!(in_check(&b, false));
    assert!(is_checkmate(&b, false));
    assert!(!is_checkmate(&b, true));
}

#[test]
fn interposing_piece_prevents_checkmate() {
    let mut b = cornered();
    write_board(&mut b, [4, 8], Space::Rook(false, true));
    assert!(in_check(&b, false));
    assert!(!is_checkmate(&b, false));
    assert!(move_piece(&mut b, [4, 8], [4, 1]));
    assert!(!in_check(&b, false));
}

#[test]
fn defending_knight_prevents_checkmate() {
    let mut b = cornered();
    write_board(&mut b, [6, 3], Space::Knight(false));
    assert!(!is_checkmate(&b, false));
}

#[test]
fn no_king_no_check() {
    let b = with(&[([4, 4], Space::Queen(true))]);
    assert_eq!(get_king(&b, false), None);
    assert!(!in_check(&b, false));
    assert!(!is_checkmate(&b, false));
}

#[test]
fn kings_found_on_start() {
    let b = standard_board();
    assert_eq!(get_king(&b, false), Some([5, 1]));
    assert_eq!(get_king(&b, true), Some([5, 8]));
}

#[test]
fn pawn_attacks_forward_diagonals_only() {
    let b = with(&[([4, 4], Space::King(false, true)), ([5, 5], Space::Pawn(true, PawnState::Moved))]);
    assert!(is_check(&b, [4, 4], false));
    let b = with(&[([4, 4], Space::King(false, true)), ([5, 3], Space::Pawn(true, PawnState::Moved))]);
    assert!(!is_check(&b, [4, 4], false));
    let b = with(&[([4, 4], Space::King(true, true)), ([3, 3], Space::Pawn(false, PawnState::Moved))]);
    assert!(is_check(&b, [4, 4], true));
    let b = with(&[([4, 4], Space::King(true, true)), ([3, 5], Space::Pawn(false, PawnState::Moved))]);
    assert!(!is_check(&b, [4, 4], true));
}

#[test]
fn lines_are_blocked_by_first_piece() {
    let b = with(&[([1, 1], Space::King(false, true)), ([1, 8], Space::Rook(true, true))]);
    assert!(is_check(&b, [1, 1], false));
    let b = with(&[([1, 1], Space::King(false, true)), ([1, 8], Space::Rook(true, true)), ([1, 5], Space::Pawn(true, PawnState::Moved))]);
    assert!(!is_check(&b, [1, 1], false));
    let b = with(&[([1, 1], Space::King(false, true)), ([8, 8], Space::Bishop(true))]);
    assert!(is_check(&b, [1, 1], false));
    let b = with(&[([1, 1], Space::King(false, true)), ([8, 8], Space::Rook(true, true))]);
    assert!(!is_check(&b, [1, 1], false));
    let b = with(&[([1, 1], Space::King(false, true)), ([1, 8], Space::Bishop(true))]);
    assert!(!is_check(&b, [1, 1], false));
    let b = with(&[([4, 4], Space::King(false, true)), ([7, 7], Space::Queen(true))]);
    assert!(is_check(&b, [4, 4], false));
}

#[test]
fn knight_and_adjacent_king_attack() {
    let b = with(&[([4, 4], Space::King(false, true)), ([6, 5], Space::Knight(true))]);
    assert!(is_check(&b, [4, 4], false));
    let b = with(&[([4, 4], Space::King(false, true)), ([6, 6], Space::Knight(true))]);
    assert!(!is_check(&b, [4, 4], false));
    let b = with(&[([4, 4], Space::King(false, true)), ([4, 5], Space::King(true, true))]);
    assert!(is_check(&b, [4, 4], false));
    let b = with(&[([4, 4], Space::King(false, true)), ([4, 6], Space::King(true, true))]);
    assert!(!is_check(&b, [4, 4], false));
    let b = with(&[([4, 4], Space::King(false, true)), ([6, 5], Space::Knight(false))]);
    assert!(!is_check(&b, [4, 4], false));
}

#[test]
fn off_board_square_not_attacked() {
    let b = with(&[([1, 1], Space::Queen(true))]);
    assert!(!is_check(&b, [0, 1], false));
    assert!(!is_check(&b, [1, 9], false));
}

#[test]
fn keys_map_to_actions() {
    assert_eq!(action_for(Key::Char('w')), Some(Action::Up));
    assert_eq!(action_for(Key::Char('k')), Some(Action::Up));
    assert_eq!(action_for(Key::Char('h')), Some(Action::Left));
    assert_eq!(action_for(Key::Char('s')), Some(Action::Down));
    assert_eq!(action_for(Key::Char('l')), Some(Action::Right));
    assert_eq!(action_for(Key::Char(' ')), Some(Action::Select));
    assert_eq!(action_for(Key::Enter), Some(Action::Select));
    assert_eq!(action_for(Key::Left), Some(Action::Left));
    assert_eq!(action_for(Key::Char('x')), None);
    assert_eq!(action_for(Key::Esc), None);
    assert_eq!(action_for(Key::Other), None);
}

#[test]
fn cursor_stays_on_board() {
    let mut u = UserState::new();
    u.cursor_blink = false;
    act(Action::Up, &mut u);
    assert_eq!(u.cursor, [1, 1]);
    assert!(u.cursor_blink);
    act(Action::Left, &mut u);
    assert_eq!(u.cursor, [1, 1]);
    act(Action::Down, &mut u);
    act(Action::Right, &mut u);
    assert_eq!(u.cursor, [2, 2]);
    for _ in 0..10 {
        act(Action::Right, &mut u);
        act(Action::Down, &mut u);
    }
    assert_eq!(u.cursor, [8, 8]);
    act(Action::Up, &mut u);
    assert_eq!(u.cursor, [8, 7]);
}

#[test]
fn select_and_move_passes_turn() {
    let mut u = UserState::new();
    u.cursor = [4, 7];
    act(Action::Select, &mut u);
    assert_eq!(u.selected, Some([4, 7]));
    act(Action::Down, &mut u);
    act(Action::Select, &mut u);
    assert_eq!(u.selected, None);
    assert!(u.turn_white);

    act(Action::Up, &mut u);
    act(Action::Select, &mut u);
    act(Action::Up, &mut u);
    act(Action::Up, &mut u);
    act(Action::Select, &mut u);
    assert_eq!(u.selected, None);
    assert!(!u.turn_white);
    assert_eq!(read_board(&u.board, [4, 5]), Some(Space::Pawn(true, PawnState::PrevSkipped)));
}

#[test]
fn cannot_select_other_side() {
    let mut u = UserState::new();
    u.cursor = [4, 2];
    act(Action::Select, &mut u);
    assert_eq!(u.selected, None);
    u.cursor = [4, 4];
    act(Action::Select, &mut u);
    assert_eq!(u.selected, Some([4, 4]));
    u.cursor = [4, 7];
    act(Action::Select, &mut u);
    assert_eq!(u.selected, Some([4, 7]));
}

#[test]
fn grid_cell_index() {
    assert_eq!(bpvc([0, 0]), 0);
    assert_eq!(bpvc([1, 1]), 33);
    assert_eq!(bpvc([8, 3]), 114);
    assert_eq!(bpvc([9, 9]), 297);
}
