use vstd::prelude::*;
use crate::board::{Board, Loc, in_bounds, loc_ok, at, square, put, read_board, do_move, castle_step, castle_rook_file};
use crate::check::{attacked, knight_delta, knight_jump, is_check};
use crate::types::{Space, PawnState, Movement, MoveData, Direction, Cand, cand, cands, side_of, shift_file, shift_rank};

verus! {

/// How square `(tf, tr)` relates to a move of the piece on `(ff, fr)`.
pub open spec fn relation(b: Board, ff: int, fr: int, tf: int, tr: int) -> Movement {
    match square(b, ff, fr) {
        Some(p) => if p is Open {
            Movement::Blocked
        } else {
            match square(b, tf, tr) {
                Some(q) => if q is Open {
                    Movement::Empty
                } else if side_of(p) != side_of(q) {
                    Movement::Enemy
                } else {
                    Movement::Blocked
                },
                None => Movement::Blocked,
            }
        },
        None => Movement::Blocked,
    }
}

/// The ray from `(f, r)` toward `d`, starting `k` squares away: every empty
/// square up to the first occupied one, and that one too when it holds an enemy.
pub open spec fn ray(b: Board, f: int, r: int, d: Direction, k: int) -> Seq<Cand>
    decreases 9 - k,
{
    if k < 1 || k > 8 {
        seq![]
    } else {
        let tf = shift_file(d, f, k);
        let tr = shift_rank(d, r, k);
        match relation(b, f, r, tf, tr) {
            Movement::Empty => seq![(Movement::Empty, tf, tr)] + ray(b, f, r, d, k + 1),
            Movement::Enemy => seq![(Movement::Enemy, tf, tr)],
            _ => seq![],
        }
    }
}

/// Square `(f, r)` holds a piece of the side opposing that of `p`.
pub open spec fn enemy_square(b: Board, f: int, r: int, p: Space) -> bool {
    square(b, f, r) matches Some(q) && !(q is Open) && side_of(q) != side_of(p)
}

/// Shape of the ray from the piece on `(f, r)` toward `d`, starting `k0`
/// squares away.
#[verifier::spinoff_prover]
#[verifier::rlimit(40)]
proof fn lemma_ray_from(b: Board, f: int, r: int, d: Direction, k0: int)
    requires
        in_bounds(f, r),
        !(at(b, f, r) is Open),
        k0 >= 1,
    ensures
        ({
            let s = ray(b, f, r, d, k0);
            &&& forall|j: int| 0 <= j < s.len() ==> (#[trigger] s[j]).1 == shift_file(d, f, k0 + j) && s[j].2 == shift_rank(d, r, k0 + j)
            &&& forall|j: int| 0 <= j < s.len() ==> ((#[trigger] s[j]).0 == Movement::Empty
                    && square(b, shift_file(d, f, k0 + j), shift_rank(d, r, k0 + j)) == Some(Space::Open))
                || (s[j].0 == Movement::Enemy && enemy_square(b, shift_file(d, f, k0 + j), shift_rank(d, r, k0 + j), at(b, f, r)))
            &&& forall|j: int| 0 <= j < s.len() - 1 ==> (#[trigger] s[j]).0 == Movement::Empty
            &&& forall|k: int| #![trigger shift_file(d, f, k), shift_rank(d, r, k)]
                k >= k0 && in_bounds(shift_file(d, f, k), shift_rank(d, r, k))
                && !(at(b, shift_file(d, f, k), shift_rank(d, r, k)) is Open)
                && (forall|m: int| k0 <= m < k ==> #[trigger] square(b, shift_file(d, f, m), shift_rank(d, r, m)) == Some(Space::Open))
                ==> s.len() == if enemy_square(b, shift_file(d, f, k), shift_rank(d, r, k), at(b, f, r)) { k - k0 + 1 } else { k - k0 }
        }),
    decreases 9 - k0,
{
    let s = ray(b, f, r, d, k0);
    if k0 > 8 {
        assert forall|k: int| #![trigger shift_file(d, f, k), shift_rank(d, r, k)]
            k >= k0 && in_bounds(shift_file(d, f, k), shift_rank(d, r, k)) implies false by {}
    } else {
        lemma_ray_from(b, f, r, d, k0 + 1);
        let t = ray(b, f, r, d, k0 + 1);
        let tf = shift_file(d, f, k0);
        let tr = shift_rank(d, r, k0);
        if relation(b, f, r, tf, tr) is Empty {
            assert(s == seq![(Movement::Empty, tf, tr)] + t);
            assert forall|j: int| 0 < j < s.len() implies #[trigger] s[j] == t[j - 1] by {}
            assert forall|k: int| #![trigger shift_file(d, f, k), shift_rank(d, r, k)]
                k >= k0 && in_bounds(shift_file(d, f, k), shift_rank(d, r, k))
                && !(at(b, shift_file(d, f, k), shift_rank(d, r, k)) is Open)
                && (forall|m: int| k0 <= m < k ==> #[trigger] square(b, shift_file(d, f, m), shift_rank(d, r, m)) == Some(Space::Open))
                implies s.len() == if enemy_square(b, shift_file(d, f, k), shift_rank(d, r, k), at(b, f, r)) { k - k0 + 1 } else { k - k0 } by {
                if k == k0 {
                    assert(false);
                } else {
                    assert forall|m: int| k0 + 1 <= m < k implies #[trigger] square(b, shift_file(d, f, m), shift_rank(d, r, m)) == Some(Space::Open) by {}
                }
            }
        }
    }
}

/// A ray holds, in order, the squares one, two, ... steps away; all but
/// the last are empty and the last is empty or held by an enemy. At the first
/// occupied square the ray ends: it includes that square exactly when an enemy
/// holds it, and nothing beyond it.
pub proof fn lemma_ray_stops_at_first_piece(b: Board, f: int, r: int, d: Direction)
    requires
        in_bounds(f, r),
        !(at(b, f, r) is Open),
    ensures
        ({
            let s = ray(b, f, r, d, 1);
            &&& forall|j: int| 0 <= j < s.len() ==> (#[trigger] s[j]).1 == shift_file(d, f, j + 1) && s[j].2 == shift_rank(d, r, j + 1)
            &&& forall|j: int| 0 <= j < s.len() ==> ((#[trigger] s[j]).0 == Movement::Empty
                    && square(b, shift_file(d, f, j + 1), shift_rank(d, r, j + 1)) == Some(Space::Open))
                || (s[j].0 == Movement::Enemy && enemy_square(b, shift_file(d, f, j + 1), shift_rank(d, r, j + 1), at(b, f, r)))
            &&& forall|j: int| 0 <= j < s.len() - 1 ==> (#[trigger] s[j]).0 == Movement::Empty
            &&& forall|k: int| #![trigger shift_file(d, f, k), shift_rank(d, r, k)]
                k >= 1 && in_bounds(shift_file(d, f, k), shift_rank(d, r, k))
                && !(at(b, shift_file(d, f, k), shift_rank(d, r, k)) is Open)
                && (forall|m: int| 1 <= m < k ==> #[trigger] square(b, shift_file(d, f, m), shift_rank(d, r, m)) == Some(Space::Open))
                ==> s.len() == if enemy_square(b, shift_file(d, f, k), shift_rank(d, r, k), at(b, f, r)) { k } else { k - 1 }
        }),
{
    lemma_ray_from(b, f, r, d, 1);
}

/// Some candidate of `s` goes to `(tf, tr)`.
pub open spec fn reaches(s: Seq<Cand>, tf: int, tr: int) -> bool {
    exists|j: int| 0 <= j < s.len() && (#[trigger] s[j]).1 == tf && s[j].2 == tr
}

/// `(tf, tr)` is one of the eight knight jumps from `(f, r)`.
pub open spec fn knight_jump_to(f: int, r: int, tf: int, tr: int) -> bool {
    exists|i: int| 0 <= i < 8 && tf == f + (#[trigger] knight_delta(i)).0 && tr == r + knight_delta(i).1
}

proof fn lemma_knight_from(b: Board, f: int, r: int, i0: int, tf: int, tr: int)
    requires
        in_bounds(f, r),
        !(at(b, f, r) is Open),
        0 <= i0 <= 8,
    ensures
        reaches(knight_moves(b, f, r, i0), tf, tr) <==> (exists|i: int| i0 <= i < 8
            && tf == f + (#[trigger] knight_delta(i)).0 && tr == r + knight_delta(i).1
            && !(relation(b, f, r, tf, tr) is Blocked)),
    decreases 8 - i0,
{
    if i0 < 8 {
        lemma_knight_from(b, f, r, i0 + 1, tf, tr);
        let head = knight_step(b, f, r, i0);
        let tail = knight_moves(b, f, r, i0 + 1);
        let s = knight_moves(b, f, r, i0);
        assert(s == head + tail);
        if reaches(tail, tf, tr) {
            let j = choose|j: int| 0 <= j < tail.len() && (#[trigger] tail[j]).1 == tf && tail[j].2 == tr;
            assert(s[head.len() + j] == tail[j]);
        }
        if reaches(s, tf, tr) {
            let j = choose|j: int| 0 <= j < s.len() && (#[trigger] s[j]).1 == tf && s[j].2 == tr;
            if j >= head.len() {
                assert(tail[j - head.len()] == s[j]);
            }
        }
        if head.len() > 0 && head[0].1 == tf && head[0].2 == tr {
            assert(s[0] == head[0]);
        }
    }
}

/// The knight's candidates go to exactly those of its eight jumps that land
/// on the board and not on a piece of its own side.
pub proof fn lemma_knight_targets(b: Board, f: int, r: int, tf: int, tr: int)
    requires
        in_bounds(f, r),
        at(b, f, r) is Knight,
    ensures
        reaches(moves(b, f, r), tf, tr) <==> knight_jump_to(f, r, tf, tr) && in_bounds(tf, tr)
            && (at(b, tf, tr) is Open || side_of(at(b, tf, tr)) != side_of(at(b, f, r))),
{
    lemma_knight_from(b, f, r, 0, tf, tr);
}

pub(crate) proof fn lemma_cands_push(v: Seq<MoveData>, m: MoveData)
    ensures
        cands(v.push(m)) == cands(v).push(cand(m)),
{
    assert(cands(v.push(m)) =~= cands(v).push(cand(m)));
}

fn get_relation(board: &Board, fromc: Loc, toc: Loc) -> (out: Movement)
    ensures
        out == relation(*board, fromc[0] as int, fromc[1] as int, toc[0] as int, toc[1] as int),
{
    let from = match read_board(board, fromc) {
        Some(Space::Open) | None => {
            return Movement::Blocked;
        },
        Some(piece) => piece,
    };
    match read_board(board, toc) {
        Some(Space::Open) => Movement::Empty,
        Some(piece) => {
            if from.is_white() != piece.is_white() {
                Movement::Enemy
            } else {
                Movement::Blocked
            }
        },
        None => Movement::Blocked,
    }
}

/// Appends the ray from `fromc` toward `dir`.
fn test_line(board: &Board, fromc: Loc, dir: Direction, vector: &mut Vec<MoveData>)
    requires
        loc_ok(fromc),
    ensures
        cands(final(vector)@) == cands(old(vector)@) + ray(*board, fromc[0] as int, fromc[1] as int, dir, 1),
{
    let ghost (f, r) = (fromc[0] as int, fromc[1] as int);
    let ghost start = cands(vector@);
    let mut index: isize = 1;
    while index < 9
        invariant
            1 <= index <= 9,
            loc_ok(fromc),
            f == fromc[0] as int,
            r == fromc[1] as int,
            start == cands(old(vector)@),
            cands(vector@) + ray(*board, f, r, dir, index as int) == start + ray(*board, f, r, dir, 1),
        decreases 9 - index,
    {
        let toc = dir.translate(fromc, index);
        let relation = get_relation(board, fromc, toc);
        let ghost before = vector@;
        let m = MoveData { relation, to: toc };
        match relation {
            Movement::Empty => {
                vector.push(m);
                proof {
                    lemma_cands_push(before, m);
                    assert(cands(vector@) + ray(*board, f, r, dir, index + 1)
                        =~= cands(before) + ray(*board, f, r, dir, index as int));
                }
            },
            Movement::Enemy => {
                vector.push(m);
                proof {
                    lemma_cands_push(before, m);
                    assert(cands(vector@) =~= cands(before) + ray(*board, f, r, dir, index as int));
                }
                return;
            },
            _ => {
                assert(cands(vector@) =~= cands(vector@) + ray(*board, f, r, dir, index as int));
                return;
            },
        }
        index = index + 1;
    }
    assert(cands(vector@) =~= cands(vector@) + ray(*board, f, r, dir, 9));
}

/// The four straight rays, in the order North, South, East, West.
pub open spec fn straight_rays(b: Board, f: int, r: int) -> Seq<Cand> {
    ray(b, f, r, Direction::North, 1) + ray(b, f, r, Direction::South, 1) + ray(b, f, r, Direction::East, 1)
        + ray(b, f, r, Direction::West, 1)
}

/// The four diagonal rays, in the order NW, NE, SW, SE.
pub open spec fn diagonal_rays(b: Board, f: int, r: int) -> Seq<Cand> {
    ray(b, f, r, Direction::NW, 1) + ray(b, f, r, Direction::NE, 1) + ray(b, f, r, Direction::SW, 1)
        + ray(b, f, r, Direction::SE, 1)
}

/// Rank `k` squares ahead of `r` for a pawn of side `w`: pawns of `true`
/// advance toward rank 1, those of `false` toward rank 8.
pub open spec fn forward_rank(r: int, w: bool, k: int) -> int {
    if w {
        r - k
    } else {
        r + k
    }
}

/// A pawn's candidates: one step ahead onto an empty square; from there a
/// second step, as `PawnSkip`, for a pawn that has not moved; and a capture on
/// each forward diagonal that holds an enemy (higher file first).
pub open spec fn pawn_moves(b: Board, f: int, r: int, p: Space) -> Seq<Cand> {
    let w = side_of(p);
    let r1 = forward_rank(r, w, 1);
    let r2 = forward_rank(r, w, 2);
    let ahead = if relation(b, f, r, f, r1) is Empty {
        seq![(Movement::Empty, f, r1)] + if (p matches Space::Pawn(_, PawnState::NotMoved)) && relation(
            b,
            f,
            r,
            f,
            r2,
        ) is Empty {
            seq![(Movement::PawnSkip, f, r2)]
        } else {
            seq![]
        }
    } else {
        seq![]
    };
    let east = if relation(b, f, r, f + 1, r1) is Enemy {
        seq![(Movement::Enemy, f + 1, r1)]
    } else {
        seq![]
    };
    let west = if relation(b, f, r, f - 1, r1) is Enemy {
        seq![(Movement::Enemy, f - 1, r1)]
    } else {
        seq![]
    };
    ahead + east + west
}

/// Jump `i` of a knight on `(f, r)`, unless it lands off the board or on a
/// piece of its own side.
pub open spec fn knight_step(b: Board, f: int, r: int, i: int) -> Seq<Cand> {
    let tf = f + knight_delta(i).0;
    let tr = r + knight_delta(i).1;
    if relation(b, f, r, tf, tr) is Blocked {
        seq![]
    } else {
        seq![(relation(b, f, r, tf, tr), tf, tr)]
    }
}

/// Jumps `i` to 7 of a knight on `(f, r)`.
pub open spec fn knight_moves(b: Board, f: int, r: int, i: int) -> Seq<Cand>
    decreases 8 - i,
{
    if i < 0 || i >= 8 {
        seq![]
    } else {
        knight_step(b, f, r, i) + knight_moves(b, f, r, i + 1)
    }
}

/// One step of a king toward `d`, unless off the board or onto its own side.
pub open spec fn king_step(b: Board, f: int, r: int, d: Direction) -> Seq<Cand> {
    let tf = shift_file(d, f, 1);
    let tr = shift_rank(d, r, 1);
    if relation(b, f, r, tf, tr) is Blocked {
        seq![]
    } else {
        seq![(relation(b, f, r, tf, tr), tf, tr)]
    }
}

/// The king of side `w` on `(f, r)` would not be attacked after stepping to
/// `(tf, r)`.
pub open spec fn safe_passage(b: Board, f: int, r: int, w: bool, tf: int) -> bool {
    !attacked(put(put(b, tf, r, Space::King(w, true)), f, r, Space::Open), tf, r, w)
}

/// Castling of the king of side `w` on `(f, r)` toward `king_side`'s rook is
/// open: that rook stands unmoved on its file, every square between them is
/// empty, and the king is attacked on neither of the two squares it enters.
pub open spec fn castle_ok(b: Board, f: int, r: int, w: bool, king_side: bool) -> bool {
    &&& square(b, castle_rook_file(f, king_side), r) == Some(Space::Rook(w, false))
    &&& square(b, castle_step(f, king_side, 1), r) == Some(Space::Open)
    &&& square(b, castle_step(f, king_side, 2), r) == Some(Space::Open)
    &&& (!king_side ==> square(b, castle_step(f, king_side, 3), r) == Some(Space::Open))
    &&& safe_passage(b, f, r, w, castle_step(f, king_side, 1))
    &&& safe_passage(b, f, r, w, castle_step(f, king_side, 2))
}

/// The castling candidate toward one side, if castling there is open.
pub open spec fn castle_move(b: Board, f: int, r: int, w: bool, king_side: bool) -> Seq<Cand> {
    if castle_ok(b, f, r, w, king_side) {
        seq![(if king_side { Movement::KingSide } else { Movement::QueenSide }, castle_step(f, king_side, 2), r)]
    } else {
        seq![]
    }
}

/// A king's candidates: one step North, South, East and West; then, for a
/// king that has not moved and is not attacked, castling toward each side.
pub open spec fn king_moves(b: Board, f: int, r: int, p: Space) -> Seq<Cand> {
    match p {
        Space::King(w, moved) => king_steps(b, f, r) + if moved || attacked(b, f, r, w) {
            seq![]
        } else {
            castle_move(b, f, r, w, true) + castle_move(b, f, r, w, false)
        },
        _ => seq![],
    }
}

pub open spec fn king_steps(b: Board, f: int, r: int) -> Seq<Cand> {
    king_step(b, f, r, Direction::North) + king_step(b, f, r, Direction::South) + king_step(b, f, r, Direction::East)
        + king_step(b, f, r, Direction::West)
}

/// The pseudo-legal candidates of the piece on `(f, r)`: reachable and not
/// onto its own side, whether or not they leave its king attacked.
pub open spec fn moves(b: Board, f: int, r: int) -> Seq<Cand> {
    let p = at(b, f, r);
    match p {
        Space::Pawn(_, _) => pawn_moves(b, f, r, p),
        Space::Rook(_, _) => straight_rays(b, f, r),
        Space::Knight(_) => knight_moves(b, f, r, 0),
        Space::Bishop(_) => diagonal_rays(b, f, r),
        Space::Queen(_) => diagonal_rays(b, f, r) + straight_rays(b, f, r),
        Space::King(_, _) => king_moves(b, f, r, p),
        Space::Open => seq![],
    }
}

/// Appends the candidate `(relation, toc)` when `keep` holds.
fn push_if(vector: &mut Vec<MoveData>, keep: bool, relation: Movement, toc: Loc)
    ensures
        cands(final(vector)@) == cands(old(vector)@) + if keep {
            seq![(relation, toc[0] as int, toc[1] as int)]
        } else {
            seq![]
        },
{
    let ghost before = vector@;
    if keep {
        let m = MoveData { relation, to: toc };
        vector.push(m);
        proof {
            lemma_cands_push(before, m);
        }
        assert(cands(vector@) =~= cands(before) + seq![(relation, toc[0] as int, toc[1] as int)]);
    } else {
        assert(cands(vector@) =~= cands(before) + seq![]);
    }
}

fn pawn_list(board: &Board, fromc: Loc, from: Space, vector: &mut Vec<MoveData>)
    requires
        loc_ok(fromc),
        from is Pawn,
    ensures
        cands(final(vector)@) == cands(old(vector)@) + pawn_moves(*board, fromc[0] as int, fromc[1] as int, from),
{
    let ghost (f, r) = (fromc[0] as int, fromc[1] as int);
    let ghost start = cands(vector@);
    let is_white = from.is_white();
    let dir = if is_white {
        Direction::South
    } else {
        Direction::North
    };
    let slide = dir.translate(fromc, 1);
    let relation = get_relation(board, fromc, slide);
    if relation == Movement::Empty {
        push_if(vector, true, relation, slide);
        let skip = dir.translate(fromc, 2);
        let not_moved = match from {
            Space::Pawn(_, PawnState::NotMoved) => true,
            _ => false,
        };
        let keep = not_moved && get_relation(board, fromc, skip) == Movement::Empty;
        push_if(vector, keep, Movement::PawnSkip, skip);
    }
    let attack = Direction::East.translate(slide, 1);
    let relation = get_relation(board, fromc, attack);
    push_if(vector, relation == Movement::Enemy, relation, attack);
    let attack = Direction::West.translate(slide, 1);
    let relation = get_relation(board, fromc, attack);
    push_if(vector, relation == Movement::Enemy, relation, attack);
    assert(cands(vector@) =~= start + pawn_moves(*board, f, r, from));
}

fn rook_list(board: &Board, fromc: Loc, vector: &mut Vec<MoveData>)
    requires
        loc_ok(fromc),
    ensures
        cands(final(vector)@) == cands(old(vector)@) + straight_rays(*board, fromc[0] as int, fromc[1] as int),
{
    let ghost start = cands(vector@);
    test_line(board, fromc, Direction::North, vector);
    test_line(board, fromc, Direction::South, vector);
    test_line(board, fromc, Direction::East, vector);
    test_line(board, fromc, Direction::West, vector);
    assert(cands(vector@) =~= start + straight_rays(*board, fromc[0] as int, fromc[1] as int));
}

fn bishop_list(board: &Board, fromc: Loc, vector: &mut Vec<MoveData>)
    requires
        loc_ok(fromc),
    ensures
        cands(final(vector)@) == cands(old(vector)@) + diagonal_rays(*board, fromc[0] as int, fromc[1] as int),
{
    let ghost start = cands(vector@);
    test_line(board, fromc, Direction::NW, vector);
    test_line(board, fromc, Direction::NE, vector);
    test_line(board, fromc, Direction::SW, vector);
    test_line(board, fromc, Direction::SE, vector);
    assert(cands(vector@) =~= start + diagonal_rays(*board, fromc[0] as int, fromc[1] as int));
}

fn queen_list(board: &Board, fromc: Loc, vector: &mut Vec<MoveData>)
    requires
        loc_ok(fromc),
    ensures
        cands(final(vector)@) == cands(old(vector)@) + diagonal_rays(*board, fromc[0] as int, fromc[1] as int)
            + straight_rays(*board, fromc[0] as int, fromc[1] as int),
{
    bishop_list(board, fromc, vector);
    rook_list(board, fromc, vector);
}

fn knight_list(board: &Board, fromc: Loc, vector: &mut Vec<MoveData>)
    requires
        loc_ok(fromc),
    ensures
        cands(final(vector)@) == cands(old(vector)@) + knight_moves(*board, fromc[0] as int, fromc[1] as int, 0),
{
    let ghost (f, r) = (fromc[0] as int, fromc[1] as int);
    let ghost start = cands(vector@);
    let mut i: usize = 0;
    while i < 8
        invariant
            i <= 8,
            loc_ok(fromc),
            f == fromc[0] as int,
            r == fromc[1] as int,
            start == cands(old(vector)@),
            cands(vector@) + knight_moves(*board, f, r, i as int) == start + knight_moves(*board, f, r, 0),
        decreases 8 - i,
    {
        let ghost before = cands(vector@);
        let (df, dr) = knight_jump(i);
        let toc = [fromc[0] + df, fromc[1] + dr];
        let relation = get_relation(board, fromc, toc);
        push_if(vector, relation != Movement::Blocked, relation, toc);
        assert(cands(vector@) + knight_moves(*board, f, r, i + 1) =~= before + knight_moves(*board, f, r, i as int));
        i = i + 1;
    }
    assert(cands(vector@) =~= cands(vector@) + knight_moves(*board, f, r, 8));
}

/// Appends the castling candidate toward `king_side`'s rook when castling
/// there is open for the unmoved king of side `is_white` on `fromc`.
fn castle_check(board: &Board, fromc: Loc, is_white: bool, king_side: bool, vector: &mut Vec<MoveData>)
    requires
        loc_ok(fromc),
    ensures
        cands(final(vector)@) == cands(old(vector)@) + castle_move(*board, fromc[0] as int, fromc[1] as int, is_white, king_side),
{
    let ghost (f, r) = (fromc[0] as int, fromc[1] as int);
    let dir = if king_side {
        Direction::East
    } else {
        Direction::West
    };
    let rook_ok = match read_board(board, dir.translate(fromc, if king_side { 3 } else { 4 })) {
        Some(Space::Rook(w, false)) => w == is_white,
        _ => false,
    };
    assert(rook_ok == (square(*board, castle_rook_file(f, king_side), r) == Some(Space::Rook(is_white, false))));
    let mut ok = rook_ok;
    let last: isize = if king_side { 2 } else { 3 };
    let mut n: isize = 1;
    while n <= last
        invariant
            1 <= n <= last + 1,
            last == if king_side { 2int } else { 3int },
            dir == if king_side { Direction::East } else { Direction::West },
            loc_ok(fromc),
            f == fromc[0] as int,
            r == fromc[1] as int,
            ok == (rook_ok && forall|k: int| 1 <= k < n ==> #[trigger] square(*board, castle_step(f, king_side, k), r) == Some(Space::Open)),
        decreases last + 1 - n,
    {
        let t = dir.translate(fromc, n);
        let seen = read_board(board, t);
        assert(seen == square(*board, castle_step(f, king_side, n as int), r));
        match seen {
            Some(Space::Open) => {},
            _ => {
                ok = false;
            },
        }
        n = n + 1;
    }
    let ghost open_path = ok;
    let mut n: isize = 1;
    while n <= 2
        invariant
            1 <= n <= 3,
            last == if king_side { 2int } else { 3int },
            dir == if king_side { Direction::East } else { Direction::West },
            loc_ok(fromc),
            f == fromc[0] as int,
            r == fromc[1] as int,
            open_path == (rook_ok && forall|k: int| 1 <= k <= last ==> #[trigger] square(*board, castle_step(f, king_side, k), r) == Some(Space::Open)),
            ok == (open_path && forall|k: int| 1 <= k < n ==> safe_passage(*board, f, r, is_white, #[trigger] castle_step(f, king_side, k))),
        decreases 3 - n,
    {
        let toc = dir.translate(fromc, n);
        let mut test_board = *board;
        do_move(&mut test_board, fromc, Space::King(is_white, false), toc, Movement::Empty);
        proof {
            if open_path {
                assert(square(*board, castle_step(f, king_side, n as int), r) == Some(Space::Open));
                assert(test_board == put(put(*board, castle_step(f, king_side, n as int), r, Space::King(is_white, true)), f, r, Space::Open));
            }
        }
        if is_check(&test_board, toc, is_white) {
            ok = false;
        }
        n = n + 1;
    }
    assert(ok == castle_ok(*board, f, r, is_white, king_side)) by {
        if open_path {
            assert(square(*board, castle_step(f, king_side, 1), r) == Some(Space::Open));
            assert(square(*board, castle_step(f, king_side, 2), r) == Some(Space::Open));
            if !king_side {
                assert(square(*board, castle_step(f, king_side, 3), r) == Some(Space::Open));
            }
        }
        if castle_ok(*board, f, r, is_white, king_side) {
            assert(forall|k: int| 1 <= k <= last ==> #[trigger] square(*board, castle_step(f, king_side, k), r) == Some(Space::Open)) by {
                assert forall|k: int| 1 <= k <= last implies #[trigger] square(*board, castle_step(f, king_side, k), r) == Some(Space::Open) by {
                    assert(k == 1 || k == 2 || k == 3);
                }
            }
        }
    }
    let relation = if king_side {
        Movement::KingSide
    } else {
        Movement::QueenSide
    };
    push_if(vector, ok, relation, dir.translate(fromc, 2));
}

/// Appends the king's one-square steps.
fn king_step_list(board: &Board, fromc: Loc, vector: &mut Vec<MoveData>)
    requires
        loc_ok(fromc),
    ensures
        cands(final(vector)@) == cands(old(vector)@) + king_steps(*board, fromc[0] as int, fromc[1] as int),
{
    let ghost start = cands(vector@);
    let toc = Direction::North.translate(fromc, 1);
    let relation = get_relation(board, fromc, toc);
    push_if(vector, relation != Movement::Blocked, relation, toc);
    let toc = Direction::South.translate(fromc, 1);
    let relation = get_relation(board, fromc, toc);
    push_if(vector, relation != Movement::Blocked, relation, toc);
    let toc = Direction::East.translate(fromc, 1);
    let relation = get_relation(board, fromc, toc);
    push_if(vector, relation != Movement::Blocked, relation, toc);
    let toc = Direction::West.translate(fromc, 1);
    let relation = get_relation(board, fromc, toc);
    push_if(vector, relation != Movement::Blocked, relation, toc);
    assert(cands(vector@) =~= start + king_steps(*board, fromc[0] as int, fromc[1] as int));
}

fn king_list(board: &Board, fromc: Loc, from: Space, vector: &mut Vec<MoveData>)
    requires
        loc_ok(fromc),
    ensures
        cands(final(vector)@) == cands(old(vector)@) + king_moves(*board, fromc[0] as int, fromc[1] as int, from),
{
    let ghost (f, r) = (fromc[0] as int, fromc[1] as int);
    let ghost start = cands(vector@);
    let (is_white, has_moved) = match from {
        Space::King(w, m) => (w, m),
        _ => {
            assert(cands(vector@) =~= start + king_moves(*board, f, r, from));
            return;
        },
    };
    king_step_list(board, fromc, vector);

    // a king that has moved, or stands attacked, cannot castle
    if has_moved || is_check(board, fromc, is_white) {
        assert(cands(vector@) =~= start + king_moves(*board, f, r, from));
        return;
    }
    castle_check(board, fromc, is_white, true, vector);
    castle_check(board, fromc, is_white, false, vector);
    assert(cands(vector@) =~= start + king_moves(*board, f, r, from));
}

/// The pseudo-legal candidates of `from`, the piece on `fromc`: reachable
/// squares not held by its own side, each with its relation. Whether a move
/// leaves the mover's king attacked is not considered here (see `deep_checks`).
/// An empty square has none.
pub fn move_list(board: &Board, fromc: Loc, from: Space) -> (out: Vec<MoveData>)
    requires
        loc_ok(fromc),
        at(*board, fromc[0] as int, fromc[1] as int) == from,
    ensures
        cands(out@) == moves(*board, fromc[0] as int, fromc[1] as int),
{
    let mut vector: Vec<MoveData> = Vec::new();
    assert(cands(vector@) =~= seq![]);
    match from {
        Space::Pawn(_, _) => {
            pawn_list(board, fromc, from, &mut vector);
        },
        Space::Rook(_, _) => {
            rook_list(board, fromc, &mut vector);
        },
        Space::Knight(_) => {
            knight_list(board, fromc, &mut vector);
        },
        Space::Bishop(_) => {
            bishop_list(board, fromc, &mut vector);
        },
        Space::Queen(_) => {
            queen_list(board, fromc, &mut vector);
        },
        Space::King(_, _) => {
            king_list(board, fromc, from, &mut vector);
        },
        Space::Open => {},
    }
    assert(cands(vector@) =~= moves(*board, fromc[0] as int, fromc[1] as int));
    vector
}

} // verus!
