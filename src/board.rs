use vstd::prelude::*;
use vstd::array::spec_array_update;
use crate::types::{Space, PawnState, Movement, Direction, Cand, cands, side_of};
use crate::piece::{moves, move_list, king_steps, king_step, castle_move, castle_ok};
use crate::check::{legalized, legalize, deep_checks, king_in_check, attacked};

verus! {

/// A square as `[file, rank]`; a square of the board has both in 1..=8.
pub type Loc = [isize; 2];

/// The grid, indexed `board[rank - 1][file - 1]`.
pub type Board = [[Space; 8]; 8];

/// Whether `(f, r)` names a square of the board.
pub open spec fn in_bounds(f: int, r: int) -> bool {
    1 <= f <= 8 && 1 <= r <= 8
}

/// Whether `l` is a square of the board.
pub open spec fn loc_ok(l: Loc) -> bool {
    in_bounds(l[0] as int, l[1] as int)
}

/// The content of an on-board square.
pub open spec fn at(b: Board, f: int, r: int) -> Space {
    b[r - 1][f - 1]
}

/// What reading `(f, r)` gives: nothing off the board.
pub open spec fn square(b: Board, f: int, r: int) -> Option<Space> {
    if in_bounds(f, r) {
        Some(at(b, f, r))
    } else {
        None
    }
}

/// `b` with the on-board square `(f, r)` set to `s`.
pub open spec fn put(b: Board, f: int, r: int, s: Space) -> Board {
    spec_array_update(b, r - 1, spec_array_update(b[r - 1], f - 1, s))
}

/// The piece on the back rank of side `w` at file `f`.
pub open spec fn back_rank_piece(f: int, w: bool) -> Space {
    if f == 1 || f == 8 {
        Space::Rook(w, false)
    } else if f == 2 || f == 7 {
        Space::Knight(w)
    } else if f == 3 || f == 6 {
        Space::Bishop(w)
    } else if f == 4 {
        Space::Queen(w)
    } else {
        Space::King(w, false)
    }
}

/// The starting arrangement: side `false` on ranks 1 and 2, side `true` on
/// ranks 7 and 8, kings on file 5 and queens on file 4.
pub open spec fn standard_at(f: int, r: int) -> Space {
    if r == 1 {
        back_rank_piece(f, false)
    } else if r == 2 {
        Space::Pawn(false, PawnState::NotMoved)
    } else if r == 7 {
        Space::Pawn(true, PawnState::NotMoved)
    } else if r == 8 {
        back_rank_piece(f, true)
    } else {
        Space::Open
    }
}

fn back_rank(w: bool) -> (out: [Space; 8])
    ensures
        forall|i: int| 0 <= i < 8 ==> #[trigger] out[i] == back_rank_piece(i + 1, w),
{
    [
        Space::Rook(w, false),
        Space::Knight(w),
        Space::Bishop(w),
        Space::Queen(w),
        Space::King(w, false),
        Space::Bishop(w),
        Space::Knight(w),
        Space::Rook(w, false),
    ]
}

fn same_rank(s: Space) -> (out: [Space; 8])
    ensures
        forall|i: int| 0 <= i < 8 ==> #[trigger] out[i] == s,
{
    [s, s, s, s, s, s, s, s]
}

/// The board at the start of a game.
pub fn standard_board() -> (out: Board)
    ensures
        forall|f: int, r: int| in_bounds(f, r) ==> #[trigger] at(out, f, r) == standard_at(f, r),
{
    let pawns_false = same_rank(Space::Pawn(false, PawnState::NotMoved));
    let pawns_true = same_rank(Space::Pawn(true, PawnState::NotMoved));
    let empty = same_rank(Space::Open);
    [back_rank(false), pawns_false, empty, empty, empty, empty, pawns_true, back_rank(true)]
}

/// Writing an on-board square and reading it back gives what was written;
/// every other square reads as before.
pub proof fn lemma_write_then_read(b: Board, loc: Loc, s: Space)
    requires
        loc_ok(loc),
    ensures
        square(put(b, loc[0] as int, loc[1] as int, s), loc[0] as int, loc[1] as int) == Some(s),
        forall|f: int, r: int| !(f == loc[0] && r == loc[1]) ==> #[trigger] square(put(b, loc[0] as int, loc[1] as int, s), f, r) == square(b, f, r),
{
    let (lf, lr) = (loc[0] as int, loc[1] as int);
    assert forall|f: int, r: int| !(f == lf && r == lr) implies #[trigger] square(put(b, lf, lr, s), f, r) == square(b, f, r) by {
        if in_bounds(f, r) && r == lr {
            assert(put(b, lf, lr, s)[r - 1]@ == b[r - 1]@.update(lf - 1, s));
        }
    }
}

/// Off the board a read finds nothing (and `write_board` changes nothing).
pub proof fn lemma_off_board(b: Board, loc: Loc)
    requires
        !loc_ok(loc),
    ensures
        square(b, loc[0] as int, loc[1] as int) is None,
{
}

/// The content of `l`, or `None` when `l` is off the board.
pub fn read_board(board: &Board, r: Loc) -> (out: Option<Space>)
    ensures
        out == square(*board, r[0] as int, r[1] as int),
{
    if r[0] < 1 || r[0] > 8 || r[1] < 1 || r[1] > 8 {
        return None;
    }
    Some(board[(r[1] - 1) as usize][(r[0] - 1) as usize])
}

/// Sets the square `loc` to `space`; off the board nothing changes and the
/// result is `false`.
pub fn write_board(board: &mut Board, loc: Loc, space: Space) -> (r: bool)
    ensures
        r == loc_ok(loc),
        r ==> *final(board) == put(*old(board), loc[0] as int, loc[1] as int, space),
        !r ==> *final(board) == *old(board),
{
    if loc[0] < 1 || loc[0] > 8 || loc[1] < 1 || loc[1] > 8 {
        return false;
    }
    let row = (loc[1] - 1) as usize;
    let col = (loc[0] - 1) as usize;
    board[row][col] = space;
    true
}

/// Whether `l` is a square of the board.
pub fn on_board(l: Loc) -> (out: bool)
    ensures
        out == loc_ok(l),
{
    1 <= l[0] && l[0] <= 8 && 1 <= l[1] && l[1] <= 8
}

/// The piece as it stands after an ordinary move: kings and rooks are marked
/// as moved, a pawn becomes `Moved`.
pub open spec fn after_moving(p: Space) -> Space {
    match p {
        Space::King(w, _) => Space::King(w, true),
        Space::Rook(w, _) => Space::Rook(w, true),
        Space::Pawn(w, _) => Space::Pawn(w, PawnState::Moved),
        _ => p,
    }
}

/// File of the rook that castles with a king on file `f`.
pub open spec fn castle_rook_file(f: int, king_side: bool) -> int {
    if king_side {
        f + 3
    } else {
        f - 4
    }
}

/// One file from `f` toward the castling side.
pub open spec fn castle_step(f: int, king_side: bool, k: int) -> int {
    if king_side {
        f + k
    } else {
        f - k
    }
}

/// The board after castling the king on `(f, r)`: the king goes two files
/// toward the rook, the rook to the square the king passed.
pub open spec fn castled(b: Board, f: int, r: int, w: bool, king_side: bool) -> Board {
    let b1 = put(b, f, r, Space::Open);
    let b2 = put(b1, castle_step(f, king_side, 2), r, Space::King(w, true));
    let b3 = put(b2, castle_step(f, king_side, 1), r, Space::Rook(w, true));
    put(b3, castle_rook_file(f, king_side), r, Space::Open)
}

/// What moving `from`, standing on `(ff, fr)`, to `(tf, tr)` with relation
/// `rel` makes of the board; `None` where the move cannot be executed.
pub open spec fn move_result(b: Board, ff: int, fr: int, from: Space, tf: int, tr: int, rel: Movement) -> Option<Board> {
    if !in_bounds(ff, fr) || !in_bounds(tf, tr) || from is Open {
        None
    } else {
        match rel {
            Movement::Empty | Movement::Enemy => Some(put(put(b, tf, tr, after_moving(from)), ff, fr, Space::Open)),
            Movement::PawnSkip => if from is Pawn {
                Some(put(put(b, ff, fr, Space::Open), tf, tr, Space::Pawn(side_of(from), PawnState::PrevSkipped)))
            } else {
                None
            },
            Movement::KingSide | Movement::QueenSide => {
                let ks = rel is KingSide;
                if from is King && tr == fr && tf == castle_step(ff, ks, 2) && in_bounds(castle_rook_file(ff, ks), fr) {
                    Some(castled(b, ff, fr, side_of(from), ks))
                } else {
                    None
                }
            },
            Movement::Check | Movement::Blocked => None,
        }
    }
}

/// Executes a move of `from`, standing on `fromc`, to `toc` as `relation`
/// says. Either the whole move is made and the result is `true`, or the board
/// is left as it was: for `Blocked` and `Check`, for an empty `from`, for a
/// square off the board, for `PawnSkip` of a piece that is not a pawn, and for
/// castling other than a king going two files toward a rook's file on the board.
pub fn do_move(board: &mut Board, fromc: Loc, from: Space, toc: Loc, relation: Movement) -> (r: bool)
    ensures
        r == move_result(*old(board), fromc[0] as int, fromc[1] as int, from, toc[0] as int, toc[1] as int, relation) is Some,
        r ==> Some(*final(board)) == move_result(*old(board), fromc[0] as int, fromc[1] as int, from, toc[0] as int, toc[1] as int, relation),
        !r ==> *final(board) == *old(board),
{
    if !on_board(fromc) || !on_board(toc) {
        return false;
    }
    match from {
        Space::Open => {
            return false;
        },
        _ => {},
    }
    match relation {
        Movement::PawnSkip => {
            match from {
                Space::Pawn(w, _) => {
                    write_board(board, fromc, Space::Open);
                    write_board(board, toc, Space::Pawn(w, PawnState::PrevSkipped))
                },
                _ => false,
            }
        },
        Movement::QueenSide | Movement::KingSide => {
            let w = match from {
                Space::King(w, _) => w,
                _ => {
                    return false;
                },
            };
            let king_side = match relation {
                Movement::KingSide => true,
                _ => false,
            };
            let dir = if king_side {
                Direction::East
            } else {
                Direction::West
            };
            let rook_from = dir.translate(fromc, if king_side { 3 } else { 4 });
            let king_to = dir.translate(fromc, 2);
            if !on_board(rook_from) || king_to[0] != toc[0] || king_to[1] != toc[1] {
                return false;
            }
            write_board(board, fromc, Space::Open);
            write_board(board, toc, Space::King(w, true));
            write_board(board, dir.translate(fromc, 1), Space::Rook(w, true));
            write_board(board, rook_from, Space::Open)
        },
        Movement::Enemy | Movement::Empty => {
            let moved = match from {
                Space::King(w, _) => Space::King(w, true),
                Space::Rook(w, _) => Space::Rook(w, true),
                Space::Pawn(w, _) => Space::Pawn(w, PawnState::Moved),
                _ => from,
            };
            write_board(board, toc, moved);
            write_board(board, fromc, Space::Open)
        },
        Movement::Blocked | Movement::Check => false,
    }
}

/// The first candidate of `s`, from index `i` on, that goes to `(tf, tr)`.
pub open spec fn first_to(s: Seq<Cand>, i: int, tf: int, tr: int) -> Option<Cand>
    decreases s.len() - i,
{
    if i < 0 || i >= s.len() {
        None
    } else if s[i].1 == tf && s[i].2 == tr {
        Some(s[i])
    } else {
        first_to(s, i + 1, tf, tr)
    }
}

/// The candidates of the piece on `(f, r)`, with those that leave its own
/// king attacked marked `Check`.
pub open spec fn legal_list(b: Board, f: int, r: int) -> Seq<Cand> {
    legalized(b, f, r, moves(b, f, r))
}

/// What moving the piece on `(ff, fr)` to `(tf, tr)` makes of the board:
/// the move is the piece's first candidate to that square, and it must not
/// be marked `Check`. `None` where no such move can be made.
pub open spec fn move_piece_result(b: Board, ff: int, fr: int, tf: int, tr: int) -> Option<Board> {
    if !in_bounds(ff, fr) || at(b, ff, fr) is Open {
        None
    } else {
        match first_to(legal_list(b, ff, fr), 0, tf, tr) {
            Some(c) => move_result(b, ff, fr, at(b, ff, fr), tf, tr, c.0),
            None => None,
        }
    }
}

/// Where `first_to` finds a candidate, it stands at some index from `i` on.
proof fn lemma_first_to(s: Seq<Cand>, i: int, tf: int, tr: int) -> (j: int)
    requires
        first_to(s, i, tf, tr) is Some,
    ensures
        i <= j < s.len(),
        0 <= j,
        s[j] == first_to(s, i, tf, tr)->0,
        s[j].1 == tf,
        s[j].2 == tr,
    decreases s.len() - i,
{
    if s[i].1 == tf && s[i].2 == tr {
        i
    } else {
        lemma_first_to(s, i + 1, tf, tr)
    }
}

/// A move that `move_piece` makes never leaves the mover's own king attacked.
pub proof fn lemma_move_piece_keeps_king_safe(b: Board, fromc: Loc, toc: Loc)
    requires
        move_piece_result(b, fromc[0] as int, fromc[1] as int, toc[0] as int, toc[1] as int) is Some,
    ensures
        !king_in_check(
            move_piece_result(b, fromc[0] as int, fromc[1] as int, toc[0] as int, toc[1] as int)->0,
            side_of(at(b, fromc[0] as int, fromc[1] as int)),
        ),
{
    let (ff, fr, tf, tr) = (fromc[0] as int, fromc[1] as int, toc[0] as int, toc[1] as int);
    let s = legal_list(b, ff, fr);
    let j = lemma_first_to(s, 0, tf, tr);
    let m = moves(b, ff, fr)[j];
    assert(s[j] == legalize(b, ff, fr, m));
}

/// A king's move two files along its rank is castling. It is made only when
/// the king has not moved and is not attacked, the rook of that side stands
/// unmoved on its file, every square between them is empty, and the king is
/// attacked on neither square it enters; when any of this fails, `move_piece`
/// leaves the board unchanged.
pub proof fn lemma_castling_conditions(b: Board, fromc: Loc, toc: Loc)
    requires
        loc_ok(fromc),
        at(b, fromc[0] as int, fromc[1] as int) is King,
        toc[1] == fromc[1],
        toc[0] == fromc[0] + 2 || toc[0] == fromc[0] - 2,
    ensures
        move_piece_result(b, fromc[0] as int, fromc[1] as int, toc[0] as int, toc[1] as int) is Some ==> ({
            let w = side_of(at(b, fromc[0] as int, fromc[1] as int));
            &&& at(b, fromc[0] as int, fromc[1] as int) == Space::King(w, false)
            &&& !attacked(b, fromc[0] as int, fromc[1] as int, w)
            &&& castle_ok(b, fromc[0] as int, fromc[1] as int, w, toc[0] == fromc[0] + 2)
        }),
{
    let (ff, fr, tf, tr) = (fromc[0] as int, fromc[1] as int, toc[0] as int, toc[1] as int);
    if move_piece_result(b, ff, fr, tf, tr) is Some {
        let p = at(b, ff, fr);
        let w = side_of(p);
        let s = legal_list(b, ff, fr);
        let j = lemma_first_to(s, 0, tf, tr);
        let ms = moves(b, ff, fr);
        assert(s[j] == legalize(b, ff, fr, ms[j]));
        let steps = king_steps(b, ff, fr);
        assert(steps.len() <= 4);
        assert forall|k: int| 0 <= k < steps.len() implies (#[trigger] steps[k]).1 != tf by {
            let n = king_step(b, ff, fr, Direction::North);
            let so = king_step(b, ff, fr, Direction::South);
            let e = king_step(b, ff, fr, Direction::East);
            let wst = king_step(b, ff, fr, Direction::West);
            assert(steps == n + so + e + wst);
            if k < n.len() {
            } else if k < n.len() + so.len() {
                assert(steps[k] == so[k - n.len()]);
            } else if k < n.len() + so.len() + e.len() {
                assert(steps[k] == e[k - n.len() - so.len()]);
            } else {
                assert(steps[k] == wst[k - n.len() - so.len() - e.len()]);
            }
        }
        match p {
            Space::King(_, moved) => {
                if j < steps.len() {
                    assert(ms[j] == steps[j]);
                } else {
                    let rest = if moved || attacked(b, ff, fr, w) {
                        seq![]
                    } else {
                        castle_move(b, ff, fr, w, true) + castle_move(b, ff, fr, w, false)
                    };
                    assert(ms == steps + rest);
                    assert(ms[j] == rest[j - steps.len()]);
                    assert(!moved && !attacked(b, ff, fr, w));
                    let east = castle_move(b, ff, fr, w, true);
                    let west = castle_move(b, ff, fr, w, false);
                    let k = j - steps.len();
                    if k < east.len() {
                        assert(rest[k] == east[k]);
                    } else {
                        assert(rest[k] == west[k - east.len()]);
                    }
                }
            },
            _ => {},
        }
    }
}

/// Moves the piece on `fromc` to `toc` if that is one of its legal moves:
/// its candidates are generated, those that leave its own king attacked are
/// marked `Check`, and the first that goes to `toc` is executed. Returns
/// whether the move was made; otherwise the board is unchanged.
pub fn move_piece(board: &mut Board, fromc: Loc, toc: Loc) -> (r: bool)
    ensures
        r == move_piece_result(*old(board), fromc[0] as int, fromc[1] as int, toc[0] as int, toc[1] as int) is Some,
        r ==> Some(*final(board)) == move_piece_result(*old(board), fromc[0] as int, fromc[1] as int, toc[0] as int, toc[1] as int),
        !r ==> *final(board) == *old(board),
{
    let from = match read_board(board, fromc) {
        None | Some(Space::Open) => {
            return false;
        },
        Some(p) => p,
    };
    let ghost (f, r) = (fromc[0] as int, fromc[1] as int);
    let mut moveset = move_list(board, fromc, from);
    deep_checks(board, fromc, &mut moveset);
    let ghost s = cands(moveset@);
    assert(s == legal_list(*board, f, r));
    let mut i: usize = 0;
    while i < moveset.len()
        invariant
            i <= moveset.len(),
            s == cands(moveset@),
            *board == *old(board),
            loc_ok(fromc),
            f == fromc[0] as int,
            r == fromc[1] as int,
            from == at(*board, f, r),
            s == legal_list(*board, f, r),
            first_to(s, i as int, toc[0] as int, toc[1] as int) == first_to(s, 0, toc[0] as int, toc[1] as int),
        decreases moveset.len() - i,
    {
        let m = moveset[i];
        assert(s[i as int] == (m.relation, m.to[0] as int, m.to[1] as int));
        if m.to[0] == toc[0] && m.to[1] == toc[1] {
            return do_move(board, fromc, from, toc, m.relation);
        }
        i = i + 1;
    }
    false
}

} // verus!
