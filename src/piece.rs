//! Pieces, the standard starting roster, and the one-ply move selector.

use vstd::prelude::*;
use crate::board::{Square, file_index, is_square};

verus! {

/// A candidate move: destination file, destination rank, and the score it
/// gains (0 unless it captures).
pub type Move = (char, u32, i32);

/// The kind of a piece.
#[derive(Debug, PartialEq, Eq, Clone, Copy, Structural)]
pub enum Types {
    Pawn,
    Rook,
    Bishop,
    Knight,
    Queen,
    King,
}

/// The side a piece plays for.
#[derive(Debug, PartialEq, Eq, Clone, Copy, Structural)]
pub enum Sides {
    White,
    Black,
}

/// A piece on the board.
#[derive(Debug)]
pub struct Piece {
    pub kind: Types,
    /// Whether the piece has moved; a pawn that has not may advance two squares.
    pub has_moved: bool,
    pub side: Sides,
    pub location: Square,
    /// Material value; the roster gives Black's pieces negative values.
    pub value: i32,
}

impl Piece {
    /// The piece stands on a square of the board.
    pub open spec fn on_board(&self) -> bool {
        is_square(self.location)
    }

    /// Zero-based file index of the piece's square.
    pub open spec fn file(&self) -> int {
        file_index(self.location.0)
    }

    /// Rank of the piece's square.
    pub open spec fn rank(&self) -> int {
        self.location.1 as int
    }
}

/// The piece that `build` makes: one that has not moved yet.
pub open spec fn fresh(kind: Types, side: Sides, location: Square, value: i32) -> Piece {
    Piece { kind, has_moved: false, side, location, value }
}

/// Makes a piece that has not moved yet.
pub fn build(kind: Types, side: Sides, location: Square, value: i32) -> (r: Piece)
    ensures
        r == fresh(kind, side, location, value),
{
    Piece { kind, has_moved: false, side, location, value }
}

/// The standard starting position: White's back rank `A1`..`H1` and pawns
/// `A2`..`H2`, then Black's back rank `A8`..`H8` and pawns `A7`..`H7`.
/// White's values are positive, Black's their negatives.
pub open spec fn roster() -> Seq<(Types, Sides, Square, i32)> {
    seq![
        (Types::Rook, Sides::White, ('A', 1u32), 5i32),
        (Types::Knight, Sides::White, ('B', 1u32), 3i32),
        (Types::Bishop, Sides::White, ('C', 1u32), 3i32),
        (Types::Queen, Sides::White, ('D', 1u32), 9i32),
        (Types::King, Sides::White, ('E', 1u32), 0i32),
        (Types::Knight, Sides::White, ('F', 1u32), 3i32),
        (Types::Bishop, Sides::White, ('G', 1u32), 3i32),
        (Types::Rook, Sides::White, ('H', 1u32), 5i32),
        (Types::Pawn, Sides::White, ('A', 2u32), 1i32),
        (Types::Pawn, Sides::White, ('B', 2u32), 1i32),
        (Types::Pawn, Sides::White, ('C', 2u32), 1i32),
        (Types::Pawn, Sides::White, ('D', 2u32), 1i32),
        (Types::Pawn, Sides::White, ('E', 2u32), 1i32),
        (Types::Pawn, Sides::White, ('F', 2u32), 1i32),
        (Types::Pawn, Sides::White, ('G', 2u32), 1i32),
        (Types::Pawn, Sides::White, ('H', 2u32), 1i32),
        (Types::Rook, Sides::Black, ('A', 8u32), -5i32),
        (Types::Knight, Sides::Black, ('B', 8u32), -3i32),
        (Types::Bishop, Sides::Black, ('C', 8u32), -3i32),
        (Types::Queen, Sides::Black, ('D', 8u32), -9i32),
        (Types::King, Sides::Black, ('E', 8u32), 0i32),
        (Types::Knight, Sides::Black, ('F', 8u32), -3i32),
        (Types::Bishop, Sides::Black, ('G', 8u32), -3i32),
        (Types::Rook, Sides::Black, ('H', 8u32), -5i32),
        (Types::Pawn, Sides::Black, ('A', 7u32), -1i32),
        (Types::Pawn, Sides::Black, ('B', 7u32), -1i32),
        (Types::Pawn, Sides::Black, ('C', 7u32), -1i32),
        (Types::Pawn, Sides::Black, ('D', 7u32), -1i32),
        (Types::Pawn, Sides::Black, ('E', 7u32), -1i32),
        (Types::Pawn, Sides::Black, ('F', 7u32), -1i32),
        (Types::Pawn, Sides::Black, ('G', 7u32), -1i32),
        (Types::Pawn, Sides::Black, ('H', 7u32), -1i32),
    ]
}

/// The 32 pieces of the starting position, in the order of `roster`.
pub fn generate_all() -> (r: Vec<Piece>)
    ensures
        r@.len() == roster().len(),
        forall|i: int|
            0 <= i < r@.len() ==> #[trigger] r@[i] == fresh(
                roster()[i].0,
                roster()[i].1,
                roster()[i].2,
                roster()[i].3,
            ),
{
    let pieces_data: Vec<(Types, Sides, Square, i32)> = vec![
        (Types::Rook, Sides::White, ('A', 1), 5),
        (Types::Knight, Sides::White, ('B', 1), 3),
        (Types::Bishop, Sides::White, ('C', 1), 3),
        (Types::Queen, Sides::White, ('D', 1), 9),
        (Types::King, Sides::White, ('E', 1), 0),
        (Types::Knight, Sides::White, ('F', 1), 3),
        (Types::Bishop, Sides::White, ('G', 1), 3),
        (Types::Rook, Sides::White, ('H', 1), 5),
        (Types::Pawn, Sides::White, ('A', 2), 1),
        (Types::Pawn, Sides::White, ('B', 2), 1),
        (Types::Pawn, Sides::White, ('C', 2), 1),
        (Types::Pawn, Sides::White, ('D', 2), 1),
        (Types::Pawn, Sides::White, ('E', 2), 1),
        (Types::Pawn, Sides::White, ('F', 2), 1),
        (Types::Pawn, Sides::White, ('G', 2), 1),
        (Types::Pawn, Sides::White, ('H', 2), 1),
        (Types::Rook, Sides::Black, ('A', 8), -5),
        (Types::Knight, Sides::Black, ('B', 8), -3),
        (Types::Bishop, Sides::Black, ('C', 8), -3),
        (Types::Queen, Sides::Black, ('D', 8), -9),
        (Types::King, Sides::Black, ('E', 8), 0),
        (Types::Knight, Sides::Black, ('F', 8), -3),
        (Types::Bishop, Sides::Black, ('G', 8), -3),
        (Types::Rook, Sides::Black, ('H', 8), -5),
        (Types::Pawn, Sides::Black, ('A', 7), -1),
        (Types::Pawn, Sides::Black, ('B', 7), -1),
        (Types::Pawn, Sides::Black, ('C', 7), -1),
        (Types::Pawn, Sides::Black, ('D', 7), -1),
        (Types::Pawn, Sides::Black, ('E', 7), -1),
        (Types::Pawn, Sides::Black, ('F', 7), -1),
        (Types::Pawn, Sides::Black, ('G', 7), -1),
        (Types::Pawn, Sides::Black, ('H', 7), -1),
    ];
    assert(pieces_data@ =~= roster());
    let mut pieces: Vec<Piece> = Vec::new();
    for i in 0..pieces_data.len()
        invariant
            pieces_data@ == roster(),
            pieces@.len() == i,
            forall|j: int|
                0 <= j < i ==> #[trigger] pieces@[j] == fresh(
                    roster()[j].0,
                    roster()[j].1,
                    roster()[j].2,
                    roster()[j].3,
                ),
    {
        let (kind, side, location, value) = pieces_data[i];
        pieces.push(build(kind, side, location, value));
    }
    pieces
}

/// Index `i` holds the highest score of `moves`, and no earlier move scores as much.
pub open spec fn is_first_best(moves: Seq<Move>, i: int) -> bool {
    &&& 0 <= i < moves.len()
    &&& forall|j: int| 0 <= j < moves.len() ==> #[trigger] moves[j].2 <= moves[i].2
    &&& forall|j: int| 0 <= j < i ==> #[trigger] moves[j].2 < moves[i].2
}

/// The move with the highest score, the earliest among equals; `None` when
/// there is no move to choose from.
pub fn best_move_out_of_these(moves: Vec<Move>) -> (r: Option<Move>)
    ensures
        r is None <==> moves@.len() == 0,
        r matches Some(m) ==> exists|i: int| is_first_best(moves@, i) && m == moves@[i],
{
    if moves.len() == 0 {
        return None;
    }
    let mut best: usize = 0;
    for i in 1..moves.len()
        invariant
            1 <= moves@.len(),
            best < i,
            forall|j: int| 0 <= j < i ==> #[trigger] moves@[j].2 <= moves@[best as int].2,
            forall|j: int| 0 <= j < best ==> #[trigger] moves@[j].2 < moves@[best as int].2,
    {
        if moves[i].2 > moves[best].2 {
            best = i;
        }
    }
    assert(is_first_best(moves@, best as int));
    Some(moves[best])
}

} // verus!
