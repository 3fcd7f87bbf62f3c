use vstd::prelude::*;
use crate::board::{Board, Loc, loc_ok, at, read_board, move_piece, move_piece_result, standard_board, standard_at, in_bounds};
use crate::types::{Space, side_of};

verus! {

/// What a player at the board does: move the cursor one square, or select.
#[derive(Clone, Copy, Debug, PartialEq, Eq, Structural)]
pub enum Action {
    Up,
    Left,
    Down,
    Right,
    Select,
}

/// A key press, as far as the game reads it.
#[derive(Clone, Copy, Debug, PartialEq, Eq, Structural)]
pub enum Key {
    Char(char),
    Enter,
    Up,
    Left,
    Down,
    Right,
    Esc,
    Other,
}

/// The action a key asks for: arrows, or w/a/s/d, or h/j/k/l move the
/// cursor; Enter and space select. Other keys, Esc included, ask for none.
pub open spec fn key_action(key: Key) -> Option<Action> {
    match key {
        Key::Char(c) => if c == 'w' || c == 'k' {
            Some(Action::Up)
        } else if c == 'a' || c == 'h' {
            Some(Action::Left)
        } else if c == 's' || c == 'j' {
            Some(Action::Down)
        } else if c == 'd' || c == 'l' {
            Some(Action::Right)
        } else if c == ' ' {
            Some(Action::Select)
        } else {
            None
        },
        Key::Enter => Some(Action::Select),
        Key::Up => Some(Action::Up),
        Key::Left => Some(Action::Left),
        Key::Down => Some(Action::Down),
        Key::Right => Some(Action::Right),
        Key::Esc | Key::Other => None,
    }
}

/// The action that `key` asks for, if any.
pub fn action_for(key: Key) -> (out: Option<Action>)
    ensures
        out == key_action(key),
{
    match key {
        Key::Char(letter) => match letter {
            'w' | 'k' => Some(Action::Up),
            'a' | 'h' => Some(Action::Left),
            's' | 'j' => Some(Action::Down),
            'd' | 'l' => Some(Action::Right),
            ' ' => Some(Action::Select),
            _ => None,
        },
        Key::Enter => Some(Action::Select),
        Key::Up => Some(Action::Up),
        Key::Left => Some(Action::Left),
        Key::Down => Some(Action::Down),
        Key::Right => Some(Action::Right),
        Key::Esc | Key::Other => None,
    }
}

/// The state of a game as the player sees it: the board, whose turn it is,
/// the cursor, the selected square, and whether the cursor is shown. Squares
/// are board coordinates, `[file, rank]` from `[1, 1]`.
#[derive(Clone, Copy, Debug)]
pub struct UserState {
    pub cursor: Loc,
    pub selected: Option<Loc>,
    pub cursor_blink: bool,
    pub turn_white: bool,
    pub board: Board,
}

impl UserState {
    /// Cursor and selection lie on the board.
    pub open spec fn wf(&self) -> bool {
        &&& loc_ok(self.cursor)
        &&& (self.selected matches Some(s) ==> loc_ok(s))
    }

    /// A new game: the starting board, side `true` to move, cursor on `[1, 1]`.
    pub fn new() -> (out: UserState)
        ensures
            out.wf(),
            out.cursor[0] == 1 && out.cursor[1] == 1,
            out.selected is None,
            out.cursor_blink,
            out.turn_white,
            forall|f: int, r: int| in_bounds(f, r) ==> #[trigger] at(out.board, f, r) == standard_at(f, r),
    {
        UserState { cursor: [1, 1], selected: None, cursor_blink: true, turn_white: true, board: standard_board() }
    }
}

/// File of the cursor after `a`: it stays on the board.
pub open spec fn cursor_file_after(c: Loc, a: Action) -> int {
    match a {
        Action::Left => if c[0] != 1 { c[0] - 1 } else { c[0] as int },
        Action::Right => if c[0] != 8 { c[0] + 1 } else { c[0] as int },
        _ => c[0] as int,
    }
}

/// Rank of the cursor after `a`: Up lowers it, Down raises it, within the board.
pub open spec fn cursor_rank_after(c: Loc, a: Action) -> int {
    match a {
        Action::Up => if c[1] != 1 { c[1] - 1 } else { c[1] as int },
        Action::Down => if c[1] != 8 { c[1] + 1 } else { c[1] as int },
        _ => c[1] as int,
    }
}

/// Selecting with a square already selected tries to move its piece to the
/// cursor, unless that square is empty or is the cursor itself.
pub open spec fn select_moves(u: UserState, s: Loc) -> bool {
    &&& !(at(u.board, s[0] as int, s[1] as int) is Open)
    &&& !(s[0] == u.cursor[0] && s[1] == u.cursor[1])
    &&& move_piece_result(u.board, s[0] as int, s[1] as int, u.cursor[0] as int, u.cursor[1] as int) is Some
}

/// Performs `action` on the game. The cursor is shown again and moves one
/// square if it can. Select with nothing selected selects the cursor's square
/// when it is empty or holds a piece of the side to move. Select with a square
/// selected: an empty selected square gives way to the cursor's; otherwise the
/// piece there is moved to the cursor if that is legal, the turn passes when
/// it was, and the selection is cleared.
pub fn act(action: Action, user: &mut UserState)
    requires
        old(user).wf(),
    ensures
        final(user).wf(),
        final(user).cursor_blink,
        final(user).cursor[0] == cursor_file_after(old(user).cursor, action),
        final(user).cursor[1] == cursor_rank_after(old(user).cursor, action),
        action != Action::Select ==> {
            &&& final(user).selected == old(user).selected
            &&& final(user).board == old(user).board
            &&& final(user).turn_white == old(user).turn_white
        },
        action == Action::Select ==> match old(user).selected {
            None => {
                let here = at(old(user).board, old(user).cursor[0] as int, old(user).cursor[1] as int);
                &&& final(user).selected == if here is Open || side_of(here) == old(user).turn_white {
                    Some(old(user).cursor)
                } else {
                    None
                }
                &&& final(user).board == old(user).board
                &&& final(user).turn_white == old(user).turn_white
            },
            Some(s) => if at(old(user).board, s[0] as int, s[1] as int) is Open {
                &&& final(user).selected == Some(old(user).cursor)
                &&& final(user).board == old(user).board
                &&& final(user).turn_white == old(user).turn_white
            } else {
                &&& final(user).selected is None
                &&& final(user).turn_white == (old(user).turn_white != select_moves(*old(user), s))
                &&& if select_moves(*old(user), s) {
                    Some(final(user).board) == move_piece_result(
                        old(user).board,
                        s[0] as int,
                        s[1] as int,
                        old(user).cursor[0] as int,
                        old(user).cursor[1] as int,
                    )
                } else {
                    final(user).board == old(user).board
                }
            },
        },
{
    user.cursor_blink = true;
    match action {
        Action::Up => {
            if user.cursor[1] != 1 {
                user.cursor[1] = user.cursor[1] - 1;
            }
        },
        Action::Left => {
            if user.cursor[0] != 1 {
                user.cursor[0] = user.cursor[0] - 1;
            }
        },
        Action::Down => {
            if user.cursor[1] != 8 {
                user.cursor[1] = user.cursor[1] + 1;
            }
        },
        Action::Right => {
            if user.cursor[0] != 8 {
                user.cursor[0] = user.cursor[0] + 1;
            }
        },
        Action::Select => {
            let cursor = user.cursor;
            let cursor_space = match read_board(&user.board, cursor) {
                Some(s) => s,
                None => {
                    return;
                },
            };
            match user.selected {
                Some(select) => {
                    let select_piece = match read_board(&user.board, select) {
                        Some(p) => p,
                        None => {
                            return;
                        },
                    };
                    if let Space::Open = select_piece {
                        user.selected = Some(cursor);
                        return;
                    }
                    let same = select[0] == cursor[0] && select[1] == cursor[1];
                    if !same && move_piece(&mut user.board, select, cursor) {
                        user.turn_white = !user.turn_white;
                    }
                    user.selected = None;
                },
                None => {
                    let selectable = match cursor_space {
                        Space::Open => true,
                        p => p.is_white() == user.turn_white,
                    };
                    if selectable {
                        user.selected = Some(cursor);
                    }
                },
            }
        },
    }
}

/// Index of the first of the three cells that show square `location` in the
/// rendered grid: ten squares to a row, the legend included, three cells each.
pub fn bpvc(location: Loc) -> (out: usize)
    requires
        0 <= location[0] <= 9,
        0 <= location[1] <= 9,
    ensures
        out == ((location[1] * 10) + location[0]) * 3,
{
    (((location[1] * 10) + location[0]) * 3) as usize
}

} // verus!
