use vstd::prelude::*;
use crate::board::Loc;

verus! {

/// What occupies one square of the board. The `bool` of each piece is its side:
/// `true` for the first player (called white), `false` for the second.
#[derive(Clone, Copy, Debug, PartialEq, Eq, Structural)]
pub enum Space {
    Pawn(bool, PawnState),
    Rook(bool, bool),
    Knight(bool),
    Bishop(bool),
    Queen(bool),
    King(bool, bool),
    Open,
}

/// Move history of a pawn. `PrevSkipped` marks a pawn whose last move was a
/// two-square advance; no generator consults it, since capture of such a pawn
/// in passing is not part of these rules.
#[derive(Clone, Copy, Debug, PartialEq, Eq, Structural)]
pub enum PawnState {
    NotMoved,
    PrevSkipped,
    Moved,
}

/// The side that owns a piece; meaningless for `Open`.
pub open spec fn side_of(s: Space) -> bool {
    match s {
        Space::Pawn(w, _) => w,
        Space::Rook(w, _) => w,
        Space::Knight(w) => w,
        Space::Bishop(w) => w,
        Space::Queen(w) => w,
        Space::King(w, _) => w,
        Space::Open => false,
    }
}

impl Space {
    /// The side of the piece; asking it of an empty square is a caller error.
    pub fn is_white(&self) -> (r: bool)
        requires
            !(*self is Open),
        ensures
            r == side_of(*self),
    {
        match self {
            Space::Pawn(w, _) => *w,
            Space::Rook(w, _) => *w,
            Space::Knight(w) => *w,
            Space::Bishop(w) => *w,
            Space::Queen(w) => *w,
            Space::King(w, _) => *w,
            Space::Open => false,
        }
    }
}

impl From<Space> for char {
    /// The letter that shows a piece; a blank for an empty square.
    fn from(value: Space) -> (c: char) {
        match value {
            Space::Pawn(_, _) => 'P',
            Space::Rook(_, _) => 'R',
            Space::Knight(_) => 'N',
            Space::Bishop(_) => 'B',
            Space::Queen(_) => 'Q',
            Space::King(_, _) => 'K',
            Space::Open => ' ',
        }
    }
}

/// The letter of each kind of square.
pub open spec fn symbol(value: Space) -> char {
    match value {
        Space::Pawn(_, _) => 'P',
        Space::Rook(_, _) => 'R',
        Space::Knight(_) => 'N',
        Space::Bishop(_) => 'B',
        Space::Queen(_) => 'Q',
        Space::King(_, _) => 'K',
        Space::Open => ' ',
    }
}

impl vstd::std_specs::convert::FromSpecImpl<Space> for char {
    open spec fn obeys_from_spec() -> bool {
        true
    }

    open spec fn from_spec(v: Space) -> char {
        symbol(v)
    }
}

/// How a destination relates to a move attempt.
#[derive(Clone, Copy, Debug, PartialEq, Eq, Structural)]
pub enum Movement {
    /// The destination is empty.
    Empty,
    /// The destination holds a piece of the other side, which is captured.
    Enemy,
    /// A pawn's two-square first advance.
    PawnSkip,
    /// Castling toward the rook on the higher file.
    KingSide,
    /// Castling toward the rook on the lower file.
    QueenSide,
    /// A move that would leave the mover's own king attacked; not playable.
    Check,
    /// The destination cannot be reached.
    Blocked,
}

/// One candidate destination and how it relates to the move.
#[derive(Clone, Copy, Debug)]
pub struct MoveData {
    pub relation: Movement,
    pub to: Loc,
}

/// A candidate as relation, file and rank.
pub type Cand = (Movement, int, int);

pub open spec fn cand(m: MoveData) -> Cand {
    (m.relation, m.to[0] as int, m.to[1] as int)
}

/// The candidates that a list of moves stands for.
pub open spec fn cands(v: Seq<MoveData>) -> Seq<Cand> {
    v.map_values(|m: MoveData| cand(m))
}

/// The eight unit directions. North raises the rank, East raises the file.
#[derive(Clone, Copy, Debug, PartialEq, Eq, Structural)]
pub enum Direction {
    North,
    South,
    East,
    West,
    NW,
    NE,
    SW,
    SE,
}

/// File reached from `f` after `k` steps toward `d`.
pub open spec fn shift_file(d: Direction, f: int, k: int) -> int {
    match d {
        Direction::East | Direction::NE | Direction::SE => f + k,
        Direction::West | Direction::NW | Direction::SW => f - k,
        _ => f,
    }
}

/// Rank reached from `r` after `k` steps toward `d`.
pub open spec fn shift_rank(d: Direction, r: int, k: int) -> int {
    match d {
        Direction::North | Direction::NW | Direction::NE => r + k,
        Direction::South | Direction::SW | Direction::SE => r - k,
        _ => r,
    }
}

/// Both coordinates of a translation fit in `isize`.
pub open spec fn translate_fits(d: Direction, loc: Loc, k: int) -> bool {
    isize::MIN <= shift_file(d, loc[0] as int, k) <= isize::MAX
        && isize::MIN <= shift_rank(d, loc[1] as int, k) <= isize::MAX
}

impl Direction {
    /// `loc` moved `d` steps in this direction; the result may lie off the board.
    pub fn translate(&self, loc: Loc, d: isize) -> (out: Loc)
        requires
            translate_fits(*self, loc, d as int),
        ensures
            out[0] == shift_file(*self, loc[0] as int, d as int),
            out[1] == shift_rank(*self, loc[1] as int, d as int),
    {
        match self {
            Direction::North => [loc[0], loc[1] + d],
            Direction::South => [loc[0], loc[1] - d],
            Direction::East => [loc[0] + d, loc[1]],
            Direction::West => [loc[0] - d, loc[1]],
            Direction::NW => [loc[0] - d, loc[1] + d],
            Direction::NE => [loc[0] + d, loc[1] + d],
            Direction::SW => [loc[0] - d, loc[1] - d],
            Direction::SE => [loc[0] + d, loc[1] - d],
        }
    }
}

} // verus!
