use vstd::prelude::*;
use crate::board::{Board, Loc, in_bounds, loc_ok, at, square, read_board, do_move, move_result, legal_list};
use crate::piece::{moves, move_list};
use crate::types::{Space, Movement, MoveData, Direction, Cand, cand, cands, side_of, shift_file, shift_rank};

verus! {

/// Whether `o` is a pawn of side `side`.
pub open spec fn pawn_of(o: Option<Space>, side: bool) -> bool {
    o matches Some(Space::Pawn(s, _)) && s == side
}

/// Whether `o` is a knight of side `side`.
pub open spec fn knight_of(o: Option<Space>, side: bool) -> bool {
    o matches Some(Space::Knight(s)) && s == side
}

/// Rank from which a pawn of the side opposing `w` captures onto rank `r`:
/// pawns of `true` advance toward rank 1, those of `false` toward rank 8.
pub open spec fn pawn_attack_rank(r: int, w: bool) -> int {
    if w {
        r - 1
    } else {
        r + 1
    }
}

/// A pawn of the other side captures onto `(f, r)`.
pub open spec fn pawn_threat(b: Board, f: int, r: int, w: bool) -> bool {
    pawn_of(square(b, f + 1, pawn_attack_rank(r, w)), !w)
        || pawn_of(square(b, f - 1, pawn_attack_rank(r, w)), !w)
}

/// Whether piece `p`, the first one met `k` squares away along a straight
/// (`straight`) or diagonal line, reaches back along that line.
pub open spec fn line_piece_hits(p: Space, k: int, straight: bool) -> bool {
    match p {
        Space::Rook(_, _) => straight,
        Space::Bishop(_) => !straight,
        Space::Queen(_) => true,
        Space::King(_, _) => straight && k == 1,
        _ => false,
    }
}

/// Walking from `(f, r)` toward `d`, starting `k` squares away: the first
/// occupied square holds a piece of the other side that reaches `(f, r)`.
pub open spec fn line_threat(b: Board, f: int, r: int, d: Direction, k: int, w: bool, straight: bool) -> bool
    decreases 9 - k,
{
    if k < 1 || k > 8 {
        false
    } else {
        match square(b, shift_file(d, f, k), shift_rank(d, r, k)) {
            None => false,
            Some(Space::Open) => line_threat(b, f, r, d, k + 1, w, straight),
            Some(p) => side_of(p) != w && line_piece_hits(p, k, straight),
        }
    }
}

/// The eight knight jumps, as (file, rank) offsets.
pub open spec fn knight_delta(i: int) -> (int, int) {
    if i == 0 {
        (1, 2)
    } else if i == 1 {
        (2, 1)
    } else if i == 2 {
        (-1, 2)
    } else if i == 3 {
        (-2, 1)
    } else if i == 4 {
        (1, -2)
    } else if i == 5 {
        (2, -1)
    } else if i == 6 {
        (-1, -2)
    } else {
        (-2, -1)
    }
}

/// A knight of the other side sits one jump `i` away from `(f, r)`.
pub open spec fn knight_on(b: Board, f: int, r: int, i: int, w: bool) -> bool {
    knight_of(square(b, f + knight_delta(i).0, r + knight_delta(i).1), !w)
}

pub open spec fn knight_threat(b: Board, f: int, r: int, w: bool) -> bool {
    exists|i: int| 0 <= i < 8 && #[trigger] knight_on(b, f, r, i, w)
}

pub open spec fn straight_threat(b: Board, f: int, r: int, w: bool) -> bool {
    ||| line_threat(b, f, r, Direction::North, 1, w, true)
    ||| line_threat(b, f, r, Direction::South, 1, w, true)
    ||| line_threat(b, f, r, Direction::East, 1, w, true)
    ||| line_threat(b, f, r, Direction::West, 1, w, true)
}

pub open spec fn diagonal_threat(b: Board, f: int, r: int, w: bool) -> bool {
    ||| line_threat(b, f, r, Direction::NW, 1, w, false)
    ||| line_threat(b, f, r, Direction::NE, 1, w, false)
    ||| line_threat(b, f, r, Direction::SW, 1, w, false)
    ||| line_threat(b, f, r, Direction::SE, 1, w, false)
}

/// Square `(f, r)` is attacked by the side opposing `w`.
#[verifier::opaque]
pub open spec fn attacked(b: Board, f: int, r: int, w: bool) -> bool {
    ||| pawn_threat(b, f, r, w)
    ||| straight_threat(b, f, r, w)
    ||| knight_threat(b, f, r, w)
    ||| diagonal_threat(b, f, r, w)
}

/// Whether square `(f, r)` holds a king of side `w`.
pub open spec fn king_at(b: Board, f: int, r: int, w: bool) -> bool {
    in_bounds(f, r) && (at(b, f, r) matches Space::King(s, _) && s == w)
}

/// Position of square `(f, r)` in the order in which the board is searched
/// for a king: file by file, rank by rank within a file.
pub open spec fn scan_index(f: int, r: int) -> int {
    (f - 1) * 8 + (r - 1)
}

/// The first king of side `w` in search order, if there is one.
pub open spec fn king_square(b: Board, w: bool) -> Option<(int, int)> {
    if exists|f: int, r: int| #[trigger] king_at(b, f, r, w) {
        let (f, r) = choose|f: int, r: int|
            #[trigger] king_at(b, f, r, w) && forall|g: int, s: int|
                #[trigger] king_at(b, g, s, w) ==> scan_index(f, r) <= scan_index(g, s);
        Some((f, r))
    } else {
        None
    }
}

/// Side `w` has a king, and the first one found is attacked.
pub open spec fn king_in_check(b: Board, w: bool) -> bool {
    match king_square(b, w) {
        Some((f, r)) => attacked(b, f, r, w),
        None => false,
    }
}

/// Whether the line from `kingc` toward `dir` is covered by a piece of the
/// side opposing `is_white`.
fn probe_line(board: &Board, kingc: Loc, dir: Direction, is_white: bool, straight: bool) -> (out: bool)
    requires
        loc_ok(kingc),
    ensures
        out == line_threat(*board, kingc[0] as int, kingc[1] as int, dir, 1, is_white, straight),
{
    let ghost (f, r) = (kingc[0] as int, kingc[1] as int);
    let mut index: isize = 1;
    while index <= 8
        invariant
            1 <= index <= 9,
            loc_ok(kingc),
            f == kingc[0] as int,
            r == kingc[1] as int,
            line_threat(*board, f, r, dir, 1, is_white, straight)
                == line_threat(*board, f, r, dir, index as int, is_white, straight),
        decreases 9 - index,
    {
        let testc = dir.translate(kingc, index);
        match read_board(board, testc) {
            None => {
                return false;
            },
            Some(Space::Open) => {},
            Some(p) => {
                let hits = match p {
                    Space::Rook(_, _) => straight,
                    Space::Bishop(_) => !straight,
                    Space::Queen(_) => true,
                    Space::King(_, _) => straight && index == 1,
                    _ => false,
                };
                return p.is_white() != is_white && hits;
            },
        }
        index = index + 1;
    }
    false
}

/// One knight jump, for `i` in 0..8.
pub(crate) fn knight_jump(i: usize) -> (out: (isize, isize))
    requires
        i < 8,
    ensures
        out.0 == knight_delta(i as int).0,
        out.1 == knight_delta(i as int).1,
{
    if i == 0 {
        (1, 2)
    } else if i == 1 {
        (2, 1)
    } else if i == 2 {
        (-1, 2)
    } else if i == 3 {
        (-2, 1)
    } else if i == 4 {
        (1, -2)
    } else if i == 5 {
        (2, -1)
    } else if i == 6 {
        (-1, -2)
    } else {
        (-2, -1)
    }
}

/// Whether the square `kingc` is attacked by the side opposing `is_white`.
/// The oracle probes outward from the square: the two squares from which an
/// opposing pawn would capture onto it, the four straight and four diagonal
/// lines up to their first occupied square, and the eight knight jumps. A
/// square off the board is never attacked.
pub fn is_check(board: &Board, kingc: Loc, is_white: bool) -> (out: bool)
    ensures
        out == (loc_ok(kingc) && attacked(*board, kingc[0] as int, kingc[1] as int, is_white)),
{
    if kingc[0] < 1 || kingc[0] > 8 || kingc[1] < 1 || kingc[1] > 8 {
        return false;
    }
    let ghost (f, r) = (kingc[0] as int, kingc[1] as int);
    proof {
        reveal(attacked);
    }

    // a pawn captures diagonally forward onto the square
    let pawn_rank: isize = if is_white {
        kingc[1] - 1
    } else {
        kingc[1] + 1
    };
    if let Some(Space::Pawn(w, _)) = read_board(board, [kingc[0] + 1, pawn_rank]) {
        if w != is_white {
            return true;
        }
    }
    if let Some(Space::Pawn(w, _)) = read_board(board, [kingc[0] - 1, pawn_rank]) {
        if w != is_white {
            return true;
        }
    }

    if probe_line(board, kingc, Direction::North, is_white, true)
        || probe_line(board, kingc, Direction::South, is_white, true)
        || probe_line(board, kingc, Direction::East, is_white, true)
        || probe_line(board, kingc, Direction::West, is_white, true)
    {
        return true;
    }

    let mut i: usize = 0;
    while i < 8
        invariant
            i <= 8,
            loc_ok(kingc),
            f == kingc[0] as int,
            r == kingc[1] as int,
            forall|j: int| 0 <= j < i ==> !#[trigger] knight_on(*board, f, r, j, is_white),
        decreases 8 - i,
    {
        let (df, dr) = knight_jump(i);
        if let Some(Space::Knight(w)) = read_board(board, [kingc[0] + df, kingc[1] + dr]) {
            if w != is_white {
                assert(knight_on(*board, f, r, i as int, is_white));
                proof {
                    reveal(attacked);
                }
                return true;
            }
        }
        i = i + 1;
    }

    probe_line(board, kingc, Direction::NW, is_white, false)
        || probe_line(board, kingc, Direction::NE, is_white, false)
        || probe_line(board, kingc, Direction::SW, is_white, false)
        || probe_line(board, kingc, Direction::SE, is_white, false)
}

/// The square of the first king of side `is_white`, searching file by file.
pub fn get_king(board: &Board, is_white: bool) -> (out: Option<Loc>)
    ensures
        match king_square(*board, is_white) {
            Some((f, r)) => out matches Some(l) && l[0] == f && l[1] == r,
            None => out is None,
        },
{
    let mut x: isize = 1;
    while x < 9
        invariant
            1 <= x <= 9,
            forall|g: int, s: int| #[trigger] king_at(*board, g, s, is_white) ==> g >= x,
        decreases 9 - x,
    {
        let mut y: isize = 1;
        while y < 9
            invariant
                1 <= x <= 8,
                1 <= y <= 9,
                forall|g: int, s: int| #[trigger] king_at(*board, g, s, is_white)
                    ==> g > x || (g == x && s >= y),
            decreases 9 - y,
        {
            if let Some(Space::King(w, _)) = read_board(board, [x, y]) {
                if w == is_white {
                    assert(king_at(*board, x as int, y as int, is_white));
                    assert(forall|g: int, s: int| #[trigger] king_at(*board, g, s, is_white)
                        ==> scan_index(x as int, y as int) <= scan_index(g, s));
                    let ghost (f, r) = king_square(*board, is_white)->0;
                    assert(f == x && r == y);
                    return Some([x, y]);
                }
            }
            y = y + 1;
        }
        x = x + 1;
    }
    assert(!exists|f: int, r: int| #[trigger] king_at(*board, f, r, is_white));
    None
}

/// Whether side `is_white`'s king is attacked; a side without a king is not.
pub fn in_check(board: &Board, is_white: bool) -> (out: bool)
    ensures
        out == king_in_check(*board, is_white),
{
    match get_king(board, is_white) {
        Some(kingc) => is_check(board, kingc, is_white),
        None => false,
    }
}

/// The board after trying candidate `c` of the piece on `(f, r)`; the board
/// itself where the move cannot be made.
pub open spec fn simulate(b: Board, f: int, r: int, c: Cand) -> Board {
    match move_result(b, f, r, at(b, f, r), c.1, c.2, c.0) {
        Some(nb) => nb,
        None => b,
    }
}

/// Candidate `c` of the piece on `(f, r)`, marked `Check` when trying it
/// leaves the mover's king attacked.
pub open spec fn legalize(b: Board, f: int, r: int, c: Cand) -> Cand {
    if king_in_check(simulate(b, f, r, c), side_of(at(b, f, r))) {
        (Movement::Check, c.1, c.2)
    } else {
        c
    }
}

pub open spec fn legalized(b: Board, f: int, r: int, s: Seq<Cand>) -> Seq<Cand> {
    s.map_values(|c: Cand| legalize(b, f, r, c))
}

/// Marks as `Check` each candidate of the piece on `fromc` after which, tried
/// on a copy of the board, that piece's side has its king attacked. Each
/// candidate is tried on a fresh copy. With no piece on `fromc` nothing changes.
pub fn deep_checks(board: &Board, fromc: Loc, vector: &mut Vec<MoveData>)
    ensures
        loc_ok(fromc) && !(at(*board, fromc[0] as int, fromc[1] as int) is Open) ==> cands(final(vector)@)
            == legalized(*board, fromc[0] as int, fromc[1] as int, cands(old(vector)@)),
        !(loc_ok(fromc) && !(at(*board, fromc[0] as int, fromc[1] as int) is Open)) ==> final(vector)@ == old(vector)@,
{
    let from = match read_board(board, fromc) {
        Some(Space::Open) | None => {
            return;
        },
        Some(p) => p,
    };
    let ghost (f, r) = (fromc[0] as int, fromc[1] as int);
    let is_white = from.is_white();
    let ghost start = cands(vector@);
    let n = vector.len();
    let mut index: usize = 0;
    while index < n
        invariant
            index <= n,
            vector.len() == n,
            loc_ok(fromc),
            f == fromc[0] as int,
            r == fromc[1] as int,
            from == at(*board, f, r),
            is_white == side_of(from),
            start == cands(old(vector)@),
            start.len() == n,
            forall|j: int| 0 <= j < index ==> #[trigger] cands(vector@)[j] == legalize(*board, f, r, start[j]),
            forall|j: int| index <= j < n ==> #[trigger] vector@[j] == old(vector)@[j],
        decreases n - index,
    {
        let m = vector[index];
        let mut test_board = *board;
        do_move(&mut test_board, fromc, from, m.to, m.relation);
        assert(start[index as int] == cand(m));
        assert(test_board == simulate(*board, f, r, cand(m)));
        let ghost before = vector@;
        if in_check(&test_board, is_white) {
            vector.set(index, MoveData { relation: Movement::Check, to: m.to });
        }
        assert(forall|j: int| 0 <= j < index ==> #[trigger] vector@[j] == before[j]);
        assert(forall|j: int| 0 <= j < index ==> #[trigger] cands(vector@)[j] == cands(before)[j]);
        assert(cands(vector@)[index as int] == legalize(*board, f, r, start[index as int]));
        index = index + 1;
    }
    assert(cands(vector@) =~= legalized(*board, f, r, start));
}

/// A candidate that may be played: one not marked `Check`.
pub open spec fn playable(c: Cand) -> bool {
    c.0 != Movement::Check
}

/// The legal moves of the piece on `fromc`: its candidates in generation
/// order, without those that would leave its own king attacked. An empty or
/// off-board square has none.
pub fn legal_moves(board: &Board, fromc: Loc) -> (out: Vec<MoveData>)
    ensures
        cands(out@) == if loc_ok(fromc) && !(at(*board, fromc[0] as int, fromc[1] as int) is Open) {
            legal_list(*board, fromc[0] as int, fromc[1] as int).filter(|c: Cand| playable(c))
        } else {
            seq![]
        },
{
    let mut out: Vec<MoveData> = Vec::new();
    assert(cands(out@) =~= seq![]);
    let from = match read_board(board, fromc) {
        Some(Space::Open) | None => {
            return out;
        },
        Some(p) => p,
    };
    let mut moveset = move_list(board, fromc, from);
    deep_checks(board, fromc, &mut moveset);
    let ghost s = cands(moveset@);
    let n = moveset.len();
    proof {
        reveal(Seq::filter);
        assert(s.subrange(0, 0).filter(|c: Cand| playable(c)) =~= seq![]);
    }
    let mut i: usize = 0;
    while i < n
        invariant
            i <= n,
            n == moveset.len(),
            s == cands(moveset@),
            cands(out@) == s.subrange(0, i as int).filter(|c: Cand| playable(c)),
        decreases n - i,
    {
        let m = moveset[i];
        let ghost t = s.subrange(0, i + 1);
        assert(t.drop_last() =~= s.subrange(0, i as int));
        assert(t.last() == cand(m));
        reveal(Seq::filter);
        assert(t.filter(|c: Cand| playable(c)) == if playable(t.last()) {
            t.drop_last().filter(|c: Cand| playable(c)).push(t.last())
        } else {
            t.drop_last().filter(|c: Cand| playable(c))
        });
        let ghost before = out@;
        match m.relation {
            Movement::Check => {},
            _ => {
                out.push(m);
                proof {
                    crate::piece::lemma_cands_push(before, m);
                }
            },
        }
        i = i + 1;
    }
    assert(s.subrange(0, n as int) =~= s);
    out
}

/// A candidate that the legalizer leaves unmarked, once tried on a copy of
/// the board, leaves the mover's king unattacked.
pub proof fn lemma_unmarked_moves_are_safe(b: Board, f: int, r: int, s: Seq<Cand>, i: int)
    requires
        0 <= i < s.len(),
        legalized(b, f, r, s)[i].0 != Movement::Check,
    ensures
        legalized(b, f, r, s)[i] == s[i],
        !king_in_check(simulate(b, f, r, legalized(b, f, r, s)[i]), side_of(at(b, f, r))),
{
}

/// The piece on `(f, r)` is of side `w`, and trying its candidate `i`
/// leaves `w`'s king unattacked.
pub open spec fn escapes(b: Board, f: int, r: int, i: int, w: bool) -> bool {
    &&& in_bounds(f, r)
    &&& !(at(b, f, r) is Open)
    &&& side_of(at(b, f, r)) == w
    &&& 0 <= i < moves(b, f, r).len()
    &&& !king_in_check(simulate(b, f, r, moves(b, f, r)[i]), w)
}

/// Side `w` is in check and no move of any of its pieces gets it out.
pub open spec fn checkmated(b: Board, w: bool) -> bool {
    king_in_check(b, w) && !exists|f: int, r: int, i: int| #[trigger] escapes(b, f, r, i, w)
}

/// Whether side `is_white` is checkmated: its king is attacked, and trying
/// every candidate of every one of its pieces leaves the king attacked.
pub fn is_checkmate(board: &Board, is_white: bool) -> (out: bool)
    ensures
        out == checkmated(*board, is_white),
{
    if !in_check(board, is_white) {
        return false;
    }
    let mut y: isize = 1;
    while y < 9
        invariant
            1 <= y <= 9,
            king_in_check(*board, is_white),
            forall|f: int, r: int, i: int| #[trigger] escapes(*board, f, r, i, is_white) ==> r >= y,
        decreases 9 - y,
    {
        let mut x: isize = 1;
        while x < 9
            invariant
                1 <= x <= 9,
                1 <= y <= 8,
                king_in_check(*board, is_white),
                forall|f: int, r: int, i: int| #[trigger] escapes(*board, f, r, i, is_white) ==> r > y || (r == y && f >= x),
            decreases 9 - x,
        {
            let fromc: Loc = [x, y];
            match read_board(board, fromc) {
                Some(Space::Open) | None => {},
                Some(piece) => {
                    if piece.is_white() == is_white {
                        let list = move_list(board, fromc, piece);
                        let mut k: usize = 0;
                        while k < list.len()
                            invariant
                                k <= list.len(),
                                1 <= x <= 8,
                                1 <= y <= 8,
                                fromc[0] == x,
                                fromc[1] == y,
                                piece == at(*board, x as int, y as int),
                                side_of(piece) == is_white,
                                cands(list@) == moves(*board, x as int, y as int),
                                forall|i: int| 0 <= i < k ==> !#[trigger] escapes(*board, x as int, y as int, i, is_white),
                            decreases list.len() - k,
                        {
                            let m = list[k];
                            let mut test_board = *board;
                            do_move(&mut test_board, fromc, piece, m.to, m.relation);
                            assert(cands(list@)[k as int] == cand(m));
                            if !in_check(&test_board, is_white) {
                                assert(escapes(*board, x as int, y as int, k as int, is_white));
                                return false;
                            }
                            k = k + 1;
                        }
                        assert(forall|i: int| #![trigger escapes(*board, x as int, y as int, i, is_white)]
                            !escapes(*board, x as int, y as int, i, is_white));
                    }
                },
            }
            x = x + 1;
        }
        y = y + 1;
    }
    assert(!exists|f: int, r: int, i: int| #[trigger] escapes(*board, f, r, i, is_white));
    true
}

} // verus!
