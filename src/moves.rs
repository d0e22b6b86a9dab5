//! Move generation: a ray scanner that walks out from a piece's square, and
//! the per-kind policies built from it.
//!
//! The board is the list of pieces. Should two pieces share a square, the one
//! earlier in the list is the one that stands there. "Forward" is towards
//! rank 8 for either side.

use vstd::prelude::*;
use crate::board::{Square, cols, column, files, on_board, square_at};
use crate::piece::{Move, Piece, Types};

verus! {

/// The longest line on the board: a slide that reaches this far runs to the edge.
pub const LONGEST_LINE: u32 = 7;

/// The first piece of `pieces` standing on `sq`, as a scan from the front finds it.
pub open spec fn occupant(pieces: Seq<Piece>, sq: Square) -> Option<Piece>
    decreases pieces.len(),
{
    if pieces.len() == 0 {
        None
    } else if pieces[0].location == sq {
        Some(pieces[0])
    } else {
        occupant(pieces.drop_first(), sq)
    }
}

/// The absolute value of `v`.
pub open spec fn abs(v: int) -> int {
    if v < 0 {
        -v
    } else {
        v
    }
}

/// What capturing `taken` is worth to `mover`: the sum of both absolute
/// values. Material values may carry a side's sign; the score never does, for
/// either side and every kind of piece.
pub open spec fn capture_score(mover: Piece, taken: Piece) -> i32 {
    (abs(mover.value as int) + abs(taken.value as int)) as i32
}

/// Every capture `mover` could make among `pieces` has a score that fits in an `i32`.
pub open spec fn scores_fit(mover: Piece, pieces: Seq<Piece>) -> bool {
    forall|i: int|
        0 <= i < pieces.len() && #[trigger] pieces[i].side != mover.side ==> abs(mover.value as int)
            + abs(pieces[i].value as int) <= i32::MAX
}

/// The moves of `p` along the line whose first square is (`f`, `r`) and
/// which steps by (`df`, `dr`), over at most `n` squares. An empty square is
/// a move when `quiet` holds and the walk goes on past it; an enemy square is
/// a capture when `capture` holds; any occupied square ends the walk.
pub open spec fn ray(
    p: Piece,
    pieces: Seq<Piece>,
    f: int,
    r: int,
    df: int,
    dr: int,
    n: nat,
    capture: bool,
    quiet: bool,
) -> Seq<Move>
    decreases n,
{
    if n == 0 || !on_board(f, r) {
        seq![]
    } else {
        let sq = square_at(f, r);
        match occupant(pieces, sq) {
            None => if quiet {
                seq![(sq.0, sq.1, 0i32)] + ray(
                    p,
                    pieces,
                    f + df,
                    r + dr,
                    df,
                    dr,
                    (n - 1) as nat,
                    capture,
                    quiet,
                )
            } else {
                seq![]
            },
            Some(q) => if capture && q.side != p.side {
                seq![(sq.0, sq.1, capture_score(p, q))]
            } else {
                seq![]
            },
        }
    }
}

/// The ray of `p` that leaves its square in direction (`df`, `dr`).
pub open spec fn slide(
    p: Piece,
    pieces: Seq<Piece>,
    df: int,
    dr: int,
    n: nat,
    capture: bool,
    quiet: bool,
) -> Seq<Move> {
    ray(p, pieces, p.file() + df, p.rank() + dr, df, dr, n, capture, quiet)
}

/// How far `p` reaches in a straight or diagonal line other than forward
/// (a pawn's two forward diagonals aside).
pub open spec fn reach(p: Piece) -> nat {
    match p.kind {
        Types::King => 1,
        _ => LONGEST_LINE as nat,
    }
}

/// How far `p` reaches straight forward: a pawn two squares until it has moved.
pub open spec fn forward_reach(p: Piece) -> nat {
    match p.kind {
        Types::Pawn => if p.has_moved {
            1
        } else {
            2
        },
        Types::King => 1,
        _ => LONGEST_LINE as nat,
    }
}

/// Whether (`df`, `dr`) is one of a pawn's forward diagonals, along which it
/// only captures, one square away.
pub open spec fn pawn_diagonal(p: Piece, df: int, dr: int) -> bool {
    p.kind == Types::Pawn && df != 0 && dr == 1
}

/// The moves of `p` in direction (`df`, `dr`). Straight forward, (0, 1),
/// it reaches `forward_reach(p)` squares; along a pawn's forward diagonal it
/// reaches one square and only captures; in any other direction it reaches
/// `reach(p)` squares. Empty squares are moves except on a pawn's diagonal.
pub open spec fn line(p: Piece, pieces: Seq<Piece>, df: int, dr: int, capture: bool) -> Seq<Move> {
    if df == 0 && dr == 1 {
        slide(p, pieces, 0, 1, forward_reach(p), capture, true)
    } else if pawn_diagonal(p, df, dr) {
        slide(p, pieces, df, dr, 1, capture, false)
    } else {
        slide(p, pieces, df, dr, reach(p), capture, true)
    }
}

/// Forward, backward, then along the rank to the right and to the left.
pub open spec fn across(p: Piece, pieces: Seq<Piece>) -> Seq<Move> {
    line(p, pieces, 0, 1, true) + line(p, pieces, 0, -1, true) + line(p, pieces, 1, 0, true) + line(
        p,
        pieces,
        -1,
        0,
        true,
    )
}

/// Up-right, down-left, up-left, then down-right.
pub open spec fn diagonals(p: Piece, pieces: Seq<Piece>) -> Seq<Move> {
    line(p, pieces, 1, 1, true) + line(p, pieces, -1, -1, true) + line(p, pieces, -1, 1, true)
        + line(p, pieces, 1, -1, true)
}

/// The single square (`df`, `dr`) away from `p`, if empty or held by an enemy.
pub open spec fn jump(p: Piece, pieces: Seq<Piece>, df: int, dr: int) -> Seq<Move> {
    slide(p, pieces, df, dr, 1, true, true)
}

/// Knight jumps two ranks up: one file right, then one file left.
pub open spec fn l_forward(p: Piece, pieces: Seq<Piece>) -> Seq<Move> {
    jump(p, pieces, 1, 2) + jump(p, pieces, -1, 2)
}

/// Knight jumps two ranks down: one file right, then one file left.
pub open spec fn l_backward(p: Piece, pieces: Seq<Piece>) -> Seq<Move> {
    jump(p, pieces, 1, -2) + jump(p, pieces, -1, -2)
}

/// Knight jumps two files across: right and up, left and up, right and
/// down, then left and down.
pub open spec fn l_sideways(p: Piece, pieces: Seq<Piece>) -> Seq<Move> {
    jump(p, pieces, 2, 1) + jump(p, pieces, -2, 1) + jump(p, pieces, 2, -1) + jump(p, pieces, -2, -1)
}

/// All moves of `p` among `pieces`, in the order in which they are generated:
/// a rook's four straight lines, a bishop's four diagonals, both for a queen
/// and for a king (one square each), a knight's eight jumps, and for a pawn
/// its forward slide, which never captures, then a capture up and to the
/// left and one up and to the right.
pub open spec fn moves_of(p: Piece, pieces: Seq<Piece>) -> Seq<Move> {
    match p.kind {
        Types::Rook => across(p, pieces),
        Types::Pawn => line(p, pieces, 0, 1, false) + line(p, pieces, -1, 1, true) + line(
            p,
            pieces,
            1,
            1,
            true,
        ),
        Types::Bishop => diagonals(p, pieces),
        Types::Queen | Types::King => across(p, pieces) + diagonals(p, pieces),
        Types::Knight => l_forward(p, pieces) + l_backward(p, pieces) + l_sideways(p, pieces),
    }
}

/// Index of the first piece of `pieces` that stands on `sq`.
fn occupant_index(pieces: &[Piece], sq: Square) -> (r: Option<usize>)
    ensures
        match r {
            None => occupant(pieces@, sq) is None,
            Some(i) => i < pieces@.len() && occupant(pieces@, sq) == Some(pieces@[i as int]),
        },
{
    let mut i: usize = 0;
    assert(pieces@.subrange(0, pieces@.len() as int) =~= pieces@);
    while i < pieces.len()
        invariant
            i <= pieces@.len(),
            occupant(pieces@, sq) == occupant(pieces@.subrange(i as int, pieces@.len() as int), sq),
        decreases pieces@.len() - i,
    {
        assert(pieces@.subrange(i as int, pieces@.len() as int).drop_first() =~= pieces@.subrange(
            i + 1,
            pieces@.len() as int,
        ));
        if pieces[i].location.0 == sq.0 && pieces[i].location.1 == sq.1 {
            return Some(i);
        }
        i += 1;
    }
    None
}

/// The absolute value of `v`.
fn magnitude(v: i32) -> (r: i32)
    requires
        v != i32::MIN,
    ensures
        r == abs(v as int),
{
    if v < 0 {
        -v
    } else {
        v
    }
}

impl Piece {
    /// Whether every capture this piece could make among `pieces` has a score
    /// that fits in an `i32`, as `legal_moves` and its parts require.
    pub fn capture_scores_fit(&self, pieces: &[Piece]) -> (r: bool)
        ensures
            r == scores_fit(*self, pieces@),
    {
        let own: i64 = if self.value < 0 {
            -(self.value as i64)
        } else {
            self.value as i64
        };
        let mut i: usize = 0;
        while i < pieces.len()
            invariant
                i <= pieces@.len(),
                own == abs(self.value as int),
                forall|j: int|
                    0 <= j < i && #[trigger] pieces@[j].side != self.side ==> abs(self.value as int)
                        + abs(pieces@[j].value as int) <= i32::MAX,
            decreases pieces@.len() - i,
        {
            if pieces[i].side != self.side {
                let other: i64 = if pieces[i].value < 0 {
                    -(pieces[i].value as i64)
                } else {
                    pieces[i].value as i64
                };
                if own + other > i32::MAX as i64 {
                    return false;
                }
            }
            i += 1;
        }
        true
    }

    /// Ray scanner: appends to `moves` the moves of this piece along the line
    /// that leaves its square in direction (`df`, `dr`), nearest square first,
    /// over at most `n` squares. An empty square is a move when `quiet` holds,
    /// and the walk goes on past it; an enemy square is a capture when
    /// `capture` holds; any occupied square ends the walk.
    pub fn scan_ray(
        &self,
        moves: Vec<Move>,
        pieces: &[Piece],
        df: i32,
        dr: i32,
        n: u32,
        capture: bool,
        quiet: bool,
    ) -> (r: Vec<Move>)
        requires
            self.on_board(),
            scores_fit(*self, pieces@),
        ensures
            r@ == moves@ + slide(*self, pieces@, df as int, dr as int, n as nat, capture, quiet),
    {
        let ghost target = moves@ + slide(*self, pieces@, df as int, dr as int, n as nat, capture, quiet);
        let names = cols();
        let mut out = moves;
        let mut f: i64 = column(self.location.0) as i64 + df as i64;
        let mut r: i64 = self.location.1 as i64 + dr as i64;
        let mut k: u32 = 0;
        let mut done = false;
        while !done && k < n && 0 <= f && f < 8 && 1 <= r && r <= 8
            invariant
                names@ == files(),
                scores_fit(*self, pieces@),
                i32::MIN <= f <= i32::MAX + 8,
                i32::MIN <= r <= i32::MAX + 8,
                k <= n,
                done ==> out@ == target,
                !done ==> out@ + ray(
                    *self,
                    pieces@,
                    f as int,
                    r as int,
                    df as int,
                    dr as int,
                    (n - k) as nat,
                    capture,
                    quiet,
                ) == target,
            decreases n - k,
        {
            let sq: Square = (names[f as usize], r as u32);
            assert(sq == square_at(f as int, r as int));
            let ghost rest = ray(
                *self,
                pieces@,
                f + df,
                r + dr,
                df as int,
                dr as int,
                (n - k - 1) as nat,
                capture,
                quiet,
            );
            match occupant_index(pieces, sq) {
                None => {
                    if quiet {
                        let ghost before = out@;
                        out.push((sq.0, sq.1, 0));
                        assert(out@ + rest =~= before + (seq![(sq.0, sq.1, 0i32)] + rest));
                    } else {
                        assert(out@ =~= out@ + Seq::<Move>::empty());
                        done = true;
                    }
                },
                Some(i) => {
                    if capture && pieces[i].side != self.side {
                        let score = magnitude(self.value) + magnitude(pieces[i].value);
                        out.push((sq.0, sq.1, score));
                    } else {
                        assert(out@ =~= out@ + Seq::<Move>::empty());
                    }
                    done = true;
                },
            }
            f = f + df as i64;
            r = r + dr as i64;
            k = k + 1;
        }
        if !done {
            assert(out@ =~= out@ + Seq::<Move>::empty());
        }
        out
    }

    /// How many squares this piece reaches in a line other than forward.
    fn steps_aside(&self) -> (r: u32)
        ensures
            r == reach(*self),
    {
        match self.kind {
            Types::King => 1,
            _ => LONGEST_LINE,
        }
    }

    /// How many squares this piece reaches straight forward.
    fn steps_forward(&self) -> (r: u32)
        ensures
            r == forward_reach(*self),
    {
        match self.kind {
            Types::Pawn => if self.has_moved {
                1
            } else {
                2
            },
            Types::King => 1,
            _ => LONGEST_LINE,
        }
    }

    /// Moves in a line other than forward, in direction (`df`, `dr`).
    fn aside(&self, moves: Vec<Move>, pieces: &[Piece], df: i32, dr: i32, can_capture: bool) -> (r:
        Vec<Move>)
        requires
            self.on_board(),
            scores_fit(*self, pieces@),
            !(df == 0 && dr == 1),
        ensures
            r@ == moves@ + line(*self, pieces@, df as int, dr as int, can_capture),
    {
        if self.kind == Types::Pawn && df != 0 && dr == 1 {
            self.scan_ray(moves, pieces, df, dr, 1, can_capture, false)
        } else {
            self.scan_ray(moves, pieces, df, dr, self.steps_aside(), can_capture, true)
        }
    }

    /// Appends the moves straight forward (rank up).
    pub fn legal_forward_moves(&self, moves: Vec<Move>, pieces: &[Piece], can_capture: bool) -> (r:
        Vec<Move>)
        requires
            self.on_board(),
            scores_fit(*self, pieces@),
        ensures
            r@ == moves@ + line(*self, pieces@, 0, 1, can_capture),
    {
        self.scan_ray(moves, pieces, 0, 1, self.steps_forward(), can_capture, true)
    }

    /// Appends the moves straight backward (rank down).
    pub fn legal_backward_moves(&self, moves: Vec<Move>, pieces: &[Piece], can_capture: bool) -> (r:
        Vec<Move>)
        requires
            self.on_board(),
            scores_fit(*self, pieces@),
        ensures
            r@ == moves@ + line(*self, pieces@, 0, -1, can_capture),
    {
        self.aside(moves, pieces, 0, -1, can_capture)
    }

    /// Appends the moves along the rank towards file `H`.
    pub fn legal_left_to_right_moves(
        &self,
        moves: Vec<Move>,
        pieces: &[Piece],
        can_capture: bool,
    ) -> (r: Vec<Move>)
        requires
            self.on_board(),
            scores_fit(*self, pieces@),
        ensures
            r@ == moves@ + line(*self, pieces@, 1, 0, can_capture),
    {
        self.aside(moves, pieces, 1, 0, can_capture)
    }

    /// Appends the moves along the rank towards file `A`.
    pub fn legal_right_to_left_moves(
        &self,
        moves: Vec<Move>,
        pieces: &[Piece],
        can_capture: bool,
    ) -> (r: Vec<Move>)
        requires
            self.on_board(),
            scores_fit(*self, pieces@),
        ensures
            r@ == moves@ + line(*self, pieces@, -1, 0, can_capture),
    {
        self.aside(moves, pieces, -1, 0, can_capture)
    }

    /// Appends the moves on the diagonal up and towards file `H`.
    pub fn legal_diag_left_to_right_moves(
        &self,
        moves: Vec<Move>,
        pieces: &[Piece],
        can_capture: bool,
    ) -> (r: Vec<Move>)
        requires
            self.on_board(),
            scores_fit(*self, pieces@),
        ensures
            r@ == moves@ + line(*self, pieces@, 1, 1, can_capture),
    {
        self.aside(moves, pieces, 1, 1, can_capture)
    }

    /// Appends the moves on the diagonal down and towards file `H`.
    pub fn legal_diag_left_to_right_backwards_moves(
        &self,
        moves: Vec<Move>,
        pieces: &[Piece],
        can_capture: bool,
    ) -> (r: Vec<Move>)
        requires
            self.on_board(),
            scores_fit(*self, pieces@),
        ensures
            r@ == moves@ + line(*self, pieces@, 1, -1, can_capture),
    {
        self.aside(moves, pieces, 1, -1, can_capture)
    }

    /// Appends the moves on the diagonal up and towards file `A`.
    pub fn legal_diag_right_to_left_moves(
        &self,
        moves: Vec<Move>,
        pieces: &[Piece],
        can_capture: bool,
    ) -> (r: Vec<Move>)
        requires
            self.on_board(),
            scores_fit(*self, pieces@),
        ensures
            r@ == moves@ + line(*self, pieces@, -1, 1, can_capture),
    {
        self.aside(moves, pieces, -1, 1, can_capture)
    }

    /// Appends the moves on the diagonal down and towards file `A`.
    pub fn legal_diag_right_to_left_backwards_moves(
        &self,
        moves: Vec<Move>,
        pieces: &[Piece],
        can_capture: bool,
    ) -> (r: Vec<Move>)
        requires
            self.on_board(),
            scores_fit(*self, pieces@),
        ensures
            r@ == moves@ + line(*self, pieces@, -1, -1, can_capture),
    {
        self.aside(moves, pieces, -1, -1, can_capture)
    }

    /// Appends the moves of all four straight lines, in the order of `across`.
    pub fn legal_accross_all(&self, moves: Vec<Move>, pieces: &[Piece]) -> (r: Vec<Move>)
        requires
            self.on_board(),
            scores_fit(*self, pieces@),
        ensures
            r@ == moves@ + across(*self, pieces@),
    {
        let ghost start = moves@;
        let moves = self.legal_forward_moves(moves, pieces, true);
        let moves = self.legal_backward_moves(moves, pieces, true);
        let moves = self.legal_left_to_right_moves(moves, pieces, true);
        let moves = self.legal_right_to_left_moves(moves, pieces, true);
        assert(moves@ =~= start + across(*self, pieces@));
        moves
    }

    /// Appends the moves of all four diagonals, in the order of `diagonals`.
    pub fn legal_diag_all(&self, moves: Vec<Move>, pieces: &[Piece]) -> (r: Vec<Move>)
        requires
            self.on_board(),
            scores_fit(*self, pieces@),
        ensures
            r@ == moves@ + diagonals(*self, pieces@),
    {
        let ghost start = moves@;
        let moves = self.legal_diag_left_to_right_moves(moves, pieces, true);
        let moves = self.legal_diag_right_to_left_backwards_moves(moves, pieces, true);
        let moves = self.legal_diag_right_to_left_moves(moves, pieces, true);
        let moves = self.legal_diag_left_to_right_backwards_moves(moves, pieces, true);
        assert(moves@ =~= start + diagonals(*self, pieces@));
        moves
    }

    /// Appends the knight jumps two ranks up, in the order of `l_forward`.
    pub fn legal_l_forward_moves(&self, moves: Vec<Move>, pieces: &[Piece]) -> (r: Vec<Move>)
        requires
            self.on_board(),
            scores_fit(*self, pieces@),
        ensures
            r@ == moves@ + l_forward(*self, pieces@),
    {
        let ghost start = moves@;
        let moves = self.scan_ray(moves, pieces, 1, 2, 1, true, true);
        let moves = self.scan_ray(moves, pieces, -1, 2, 1, true, true);
        assert(moves@ =~= start + l_forward(*self, pieces@));
        moves
    }

    /// Appends the knight jumps two ranks down, in the order of `l_backward`.
    pub fn legal_l_backward_moves(&self, moves: Vec<Move>, pieces: &[Piece]) -> (r: Vec<Move>)
        requires
            self.on_board(),
            scores_fit(*self, pieces@),
        ensures
            r@ == moves@ + l_backward(*self, pieces@),
    {
        let ghost start = moves@;
        let moves = self.scan_ray(moves, pieces, 1, -2, 1, true, true);
        let moves = self.scan_ray(moves, pieces, -1, -2, 1, true, true);
        assert(moves@ =~= start + l_backward(*self, pieces@));
        moves
    }

    /// Appends the knight jumps two files across, in the order of `l_sideways`.
    fn legal_l_sideways_moves(&self, moves: Vec<Move>, pieces: &[Piece]) -> (r: Vec<Move>)
        requires
            self.on_board(),
            scores_fit(*self, pieces@),
        ensures
            r@ == moves@ + l_sideways(*self, pieces@),
    {
        let ghost start = moves@;
        let moves = self.scan_ray(moves, pieces, 2, 1, 1, true, true);
        let moves = self.scan_ray(moves, pieces, -2, 1, 1, true, true);
        let moves = self.scan_ray(moves, pieces, 2, -1, 1, true, true);
        let moves = self.scan_ray(moves, pieces, -2, -1, 1, true, true);
        assert(moves@ =~= start + l_sideways(*self, pieces@));
        moves
    }

    /// Appends all eight knight jumps.
    pub fn legal_l_moves(&self, moves: Vec<Move>, pieces: &[Piece]) -> (r: Vec<Move>)
        requires
            self.on_board(),
            scores_fit(*self, pieces@),
        ensures
            r@ == moves@ + l_forward(*self, pieces@) + l_backward(*self, pieces@) + l_sideways(
                *self,
                pieces@,
            ),
    {
        let moves = self.legal_l_forward_moves(moves, pieces);
        let moves = self.legal_l_backward_moves(moves, pieces);
        self.legal_l_sideways_moves(moves, pieces)
    }

    /// All moves of this piece among `pieces`, in the order of `moves_of`:
    /// each line nearest square first, lines in a fixed order per kind.
    pub fn legal_moves(&self, pieces: &[Piece]) -> (r: Vec<Move>)
        requires
            self.on_board(),
            scores_fit(*self, pieces@),
        ensures
            r@ == moves_of(*self, pieces@),
    {
        let moves: Vec<Move> = Vec::new();
        let ghost start = moves@;
        let moves = match self.kind {
            Types::Rook => self.legal_accross_all(moves, pieces),
            Types::Pawn => {
                let moves = self.legal_forward_moves(moves, pieces, false);
                let moves = self.legal_diag_right_to_left_moves(moves, pieces, true);
                self.legal_diag_left_to_right_moves(moves, pieces, true)
            },
            Types::Bishop => self.legal_diag_all(moves, pieces),
            Types::Queen | Types::King => {
                let moves = self.legal_accross_all(moves, pieces);
                self.legal_diag_all(moves, pieces)
            },
            Types::Knight => self.legal_l_moves(moves, pieces),
        };
        assert(moves@ =~= moves_of(*self, pieces@));
        moves
    }
}

} // verus!
