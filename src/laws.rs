//! Properties of move generation and selection, stated over the models that
//! the generators' contracts use, and proved.

use vstd::prelude::*;
use crate::board::{
    Square,
    files,
    lemma_file_char,
    lemma_file_index,
    lemma_square_at_injective,
    on_board,
    square_at,
};
use crate::moves::{
    across,
    abs,
    capture_score,
    diagonals,
    forward_reach,
    jump,
    l_backward,
    l_forward,
    l_sideways,
    line,
    moves_of,
    occupant,
    ray,
    reach,
    scores_fit,
};
use crate::piece::{Move, Piece, Types, is_first_best};

verus! {

/// No two pieces of `pieces` stand on the same square.
pub open spec fn squares_distinct(pieces: Seq<Piece>) -> bool {
    forall|i: int, j: int|
        0 <= i < j < pieces.len() ==> #[trigger] pieces[i].location != #[trigger] pieces[j].location
}

/// Some piece of `pieces` stands on `sq`.
pub open spec fn occupied(pieces: Seq<Piece>, sq: Square) -> bool {
    exists|i: int| 0 <= i < pieces.len() && #[trigger] pieces[i].location == sq
}

/// A move of `p` either goes to an empty square and scores nothing, or
/// captures the enemy piece that stands there and scores `capture_score`.
pub open spec fn lands(p: Piece, pieces: Seq<Piece>, m: Move) -> bool {
    match occupant(pieces, (m.0, m.1)) {
        None => m.2 == 0,
        Some(q) => q.side != p.side && m.2 == capture_score(p, q),
    }
}

/// `occupant` finds nothing exactly when no piece stands on the square, and
/// what it finds is a piece of the list that stands there.
pub proof fn lemma_occupant(pieces: Seq<Piece>, sq: Square) -> (i: int)
    ensures
        occupant(pieces, sq) is None <==> !occupied(pieces, sq),
        occupant(pieces, sq) is Some ==> 0 <= i < pieces.len() && occupant(pieces, sq) == Some(
            pieces[i],
        ) && pieces[i].location == sq,
    decreases pieces.len(),
{
    if pieces.len() == 0 {
        0
    } else if pieces[0].location == sq {
        0
    } else {
        let rest = pieces.drop_first();
        let j = lemma_occupant(rest, sq);
        if occupied(pieces, sq) {
            let k = choose|k: int| 0 <= k < pieces.len() && #[trigger] pieces[k].location == sq;
            assert(rest[k - 1].location == sq);
        }
        if occupied(rest, sq) {
            let k = choose|k: int| 0 <= k < rest.len() && #[trigger] rest[k].location == sq;
            assert(pieces[k + 1].location == sq);
        }
        j + 1
    }
}

/// On a board without shared squares, the piece that stands on `pieces[e]`'s
/// square is `pieces[e]`.
pub proof fn lemma_occupant_distinct(pieces: Seq<Piece>, e: int)
    requires
        squares_distinct(pieces),
        0 <= e < pieces.len(),
    ensures
        occupant(pieces, pieces[e].location) == Some(pieces[e]),
{
    let sq = pieces[e].location;
    assert(occupied(pieces, sq));
    let i = lemma_occupant(pieces, sq);
    if i < e {
        assert(pieces[i].location != pieces[e].location);
    } else if e < i {
        assert(pieces[e].location != pieces[i].location);
    }
}

/// What a concatenation contains is what one of its parts contains.
proof fn lemma_contains_concat<A>(a: Seq<A>, b: Seq<A>)
    ensures
        forall|x: A| #[trigger] (a + b).contains(x) <==> a.contains(x) || b.contains(x),
{
    assert forall|x: A| #[trigger] (a + b).contains(x) <==> a.contains(x) || b.contains(x) by {
        if (a + b).contains(x) {
            let i = choose|i: int| 0 <= i < (a + b).len() && (a + b)[i] == x;
            if i >= a.len() {
                assert(b[i - a.len()] == x);
            }
        }
        if a.contains(x) {
            let i = choose|i: int| 0 <= i < a.len() && a[i] == x;
            assert((a + b)[i] == x);
        }
        if b.contains(x) {
            let i = choose|i: int| 0 <= i < b.len() && b[i] == x;
            assert((a + b)[a.len() + i] == x);
        }
    }
}

/// How one step of a ray ends: on an empty square when `quiet` holds,
/// scoring nothing; or capturing the enemy that stands there when `capture`
/// holds, scoring `capture_score`.
pub open spec fn steps_onto(p: Piece, pieces: Seq<Piece>, m: Move, capture: bool, quiet: bool) -> bool {
    match occupant(pieces, (m.0, m.1)) {
        None => quiet && m.2 == 0,
        Some(q) => capture && q.side != p.side && m.2 == capture_score(p, q),
    }
}

/// Every move of a ray is a step onto an empty square or a capture, as the
/// ray's flags allow; along a file, or over a single square, every move
/// keeps the file of the ray's first square.
proof fn lemma_ray_steps(
    p: Piece,
    pieces: Seq<Piece>,
    f: int,
    r: int,
    df: int,
    dr: int,
    n: nat,
    capture: bool,
    quiet: bool,
)
    ensures
        forall|m: Move| #[trigger]
            ray(p, pieces, f, r, df, dr, n, capture, quiet).contains(m) ==> steps_onto(
                p,
                pieces,
                m,
                capture,
                quiet,
            ) && lands(p, pieces, m),
        df == 0 || n <= 1 ==> forall|m: Move| #[trigger]
            ray(p, pieces, f, r, df, dr, n, capture, quiet).contains(m) ==> m.0 == files()[f],
    decreases n,
{
    if n > 0 && on_board(f, r) {
        let sq = square_at(f, r);
        let rest = ray(p, pieces, f + df, r + dr, df, dr, (n - 1) as nat, capture, quiet);
        lemma_ray_steps(p, pieces, f + df, r + dr, df, dr, (n - 1) as nat, capture, quiet);
        lemma_contains_concat(seq![(sq.0, sq.1, 0i32)], rest);
        if n == 1 {
            assert(rest.len() == 0);
        }
    }
}

/// Every move of a line lands.
proof fn lemma_line_lands(p: Piece, pieces: Seq<Piece>, df: int, dr: int, capture: bool)
    ensures
        forall|m: Move| #[trigger] line(p, pieces, df, dr, capture).contains(m) ==> lands(p, pieces, m),
{
    lemma_ray_steps(p, pieces, p.file() + 0, p.rank() + 1, 0, 1, forward_reach(p), capture, true);
    lemma_ray_steps(p, pieces, p.file() + df, p.rank() + dr, df, dr, 1, capture, false);
    lemma_ray_steps(p, pieces, p.file() + df, p.rank() + dr, df, dr, reach(p), capture, true);
}

/// Every knight jump lands.
proof fn lemma_jump_lands(p: Piece, pieces: Seq<Piece>, df: int, dr: int)
    ensures
        forall|m: Move| #[trigger] jump(p, pieces, df, dr).contains(m) ==> lands(p, pieces, m),
{
    lemma_ray_steps(p, pieces, p.file() + df, p.rank() + dr, df, dr, 1, true, true);
}

/// What each part of `moves_of` contains, line by line and jump by jump.
proof fn lemma_parts(p: Piece, ps: Seq<Piece>)
    ensures
        forall|m: Move| #[trigger]
            across(p, ps).contains(m) <==> line(p, ps, 0, 1, true).contains(m) || line(
                p,
                ps,
                0,
                -1,
                true,
            ).contains(m) || line(p, ps, 1, 0, true).contains(m) || line(p, ps, -1, 0, true).contains(
                m,
            ),
        forall|m: Move| #[trigger]
            diagonals(p, ps).contains(m) <==> line(p, ps, 1, 1, true).contains(m) || line(
                p,
                ps,
                -1,
                -1,
                true,
            ).contains(m) || line(p, ps, -1, 1, true).contains(m) || line(p, ps, 1, -1, true).contains(
                m,
            ),
        forall|m: Move| #[trigger]
            (across(p, ps) + diagonals(p, ps)).contains(m) <==> across(p, ps).contains(m) || diagonals(
                p,
                ps,
            ).contains(m),
        forall|m: Move| #[trigger]
            l_forward(p, ps).contains(m) <==> jump(p, ps, 1, 2).contains(m) || jump(
                p,
                ps,
                -1,
                2,
            ).contains(m),
        forall|m: Move| #[trigger]
            l_backward(p, ps).contains(m) <==> jump(p, ps, 1, -2).contains(m) || jump(
                p,
                ps,
                -1,
                -2,
            ).contains(m),
        forall|m: Move| #[trigger]
            l_sideways(p, ps).contains(m) <==> jump(p, ps, 2, 1).contains(m) || jump(
                p,
                ps,
                -2,
                1,
            ).contains(m) || jump(p, ps, 2, -1).contains(m) || jump(p, ps, -2, -1).contains(m),
        forall|m: Move| #[trigger]
            (l_forward(p, ps) + l_backward(p, ps) + l_sideways(p, ps)).contains(m) <==> l_forward(
                p,
                ps,
            ).contains(m) || l_backward(p, ps).contains(m) || l_sideways(p, ps).contains(m),
        forall|m: Move| #[trigger]
            (line(p, ps, 0, 1, false) + line(p, ps, -1, 1, true) + line(p, ps, 1, 1, true)).contains(m)
                <==> line(p, ps, 0, 1, false).contains(m) || line(p, ps, -1, 1, true).contains(m)
                || line(p, ps, 1, 1, true).contains(m),
{
    lemma_contains_concat(line(p, ps, 0, 1, true), line(p, ps, 0, -1, true));
    lemma_contains_concat(line(p, ps, 0, 1, true) + line(p, ps, 0, -1, true), line(p, ps, 1, 0, true));
    lemma_contains_concat(
        line(p, ps, 0, 1, true) + line(p, ps, 0, -1, true) + line(p, ps, 1, 0, true),
        line(p, ps, -1, 0, true),
    );
    lemma_contains_concat(line(p, ps, 1, 1, true), line(p, ps, -1, -1, true));
    lemma_contains_concat(line(p, ps, 1, 1, true) + line(p, ps, -1, -1, true), line(p, ps, -1, 1, true));
    lemma_contains_concat(
        line(p, ps, 1, 1, true) + line(p, ps, -1, -1, true) + line(p, ps, -1, 1, true),
        line(p, ps, 1, -1, true),
    );
    lemma_contains_concat(across(p, ps), diagonals(p, ps));
    lemma_contains_concat(line(p, ps, 0, 1, false), line(p, ps, -1, 1, true));
    lemma_contains_concat(line(p, ps, 0, 1, false) + line(p, ps, -1, 1, true), line(p, ps, 1, 1, true));
    lemma_contains_concat(jump(p, ps, 1, 2), jump(p, ps, -1, 2));
    lemma_contains_concat(jump(p, ps, 1, -2), jump(p, ps, -1, -2));
    lemma_contains_concat(jump(p, ps, 2, 1), jump(p, ps, -2, 1));
    lemma_contains_concat(jump(p, ps, 2, 1) + jump(p, ps, -2, 1), jump(p, ps, 2, -1));
    lemma_contains_concat(jump(p, ps, 2, 1) + jump(p, ps, -2, 1) + jump(p, ps, 2, -1), jump(p, ps, -2, -1));
    lemma_contains_concat(l_forward(p, ps), l_backward(p, ps));
    lemma_contains_concat(l_forward(p, ps) + l_backward(p, ps), l_sideways(p, ps));
}

/// Every move that `legal_moves` returns lands.
pub proof fn lemma_moves_land(p: Piece, pieces: Seq<Piece>)
    ensures
        forall|m: Move| #[trigger] moves_of(p, pieces).contains(m) ==> lands(p, pieces, m),
{
    let ps = pieces;
    lemma_parts(p, ps);
    lemma_line_lands(p, ps, 0, 1, true);
    lemma_line_lands(p, ps, 0, 1, false);
    lemma_line_lands(p, ps, 0, -1, true);
    lemma_line_lands(p, ps, 1, 0, true);
    lemma_line_lands(p, ps, -1, 0, true);
    lemma_line_lands(p, ps, 1, 1, true);
    lemma_line_lands(p, ps, -1, -1, true);
    lemma_line_lands(p, ps, -1, 1, true);
    lemma_line_lands(p, ps, 1, -1, true);
    lemma_jump_lands(p, ps, 1, 2);
    lemma_jump_lands(p, ps, -1, 2);
    lemma_jump_lands(p, ps, 2, 1);
    lemma_jump_lands(p, ps, -2, 1);
    lemma_jump_lands(p, ps, 1, -2);
    lemma_jump_lands(p, ps, -1, -2);
    lemma_jump_lands(p, ps, 2, -1);
    lemma_jump_lands(p, ps, -2, -1);
}

/// `legal_moves` never returns a square that a piece of the mover's own side
/// holds (on a board where no two pieces share a square).
pub proof fn lemma_never_onto_friendly(p: Piece, pieces: Seq<Piece>)
    requires
        squares_distinct(pieces),
    ensures
        forall|m: Move, i: int|
            #[trigger] moves_of(p, pieces).contains(m) && 0 <= i < pieces.len()
                && #[trigger] pieces[i].location == (m.0, m.1) ==> pieces[i].side != p.side,
{
    lemma_moves_land(p, pieces);
    assert forall|m: Move, i: int|
        #[trigger] moves_of(p, pieces).contains(m) && 0 <= i < pieces.len()
            && #[trigger] pieces[i].location == (m.0, m.1) implies pieces[i].side != p.side by {
        lemma_occupant_distinct(pieces, i);
    }
}

/// A pawn's moves along its own file, its forward slide, never go onto an
/// occupied square, friendly or enemy, and score nothing.
pub proof fn lemma_pawn_slide_needs_empty(p: Piece, pieces: Seq<Piece>)
    requires
        p.on_board(),
        p.kind == Types::Pawn,
    ensures
        forall|m: Move| #[trigger]
            moves_of(p, pieces).contains(m) && m.0 == p.location.0 ==> !occupied(pieces, (m.0, m.1))
                && m.2 == 0,
{
    lemma_pawn_parts(p, pieces);
    assert forall|m: Move| #[trigger]
        moves_of(p, pieces).contains(m) && m.0 == p.location.0 implies !occupied(pieces, (m.0, m.1))
            && m.2 == 0 by {
        lemma_occupant(pieces, (m.0, m.1));
    }
}

/// A pawn's moves off its own file, its diagonal steps, go only onto squares
/// that an enemy piece holds.
pub proof fn lemma_pawn_diagonal_needs_enemy(p: Piece, pieces: Seq<Piece>)
    requires
        p.on_board(),
        p.kind == Types::Pawn,
    ensures
        forall|m: Move| #[trigger]
            moves_of(p, pieces).contains(m) && m.0 != p.location.0 ==> exists|i: int|
                0 <= i < pieces.len() && #[trigger] pieces[i].location == (m.0, m.1)
                    && pieces[i].side != p.side,
{
    lemma_pawn_parts(p, pieces);
    assert forall|m: Move| #[trigger]
        moves_of(p, pieces).contains(m) && m.0 != p.location.0 implies exists|i: int|
            0 <= i < pieces.len() && #[trigger] pieces[i].location == (m.0, m.1)
                && pieces[i].side != p.side by {
        let i = lemma_occupant(pieces, (m.0, m.1));
        assert(pieces[i].location == (m.0, m.1));
    }
}

/// A pawn's moves on its own file are quiet steps onto empty squares; those
/// off it are captures.
proof fn lemma_pawn_parts(p: Piece, pieces: Seq<Piece>)
    requires
        p.on_board(),
        p.kind == Types::Pawn,
    ensures
        forall|m: Move| #[trigger]
            moves_of(p, pieces).contains(m) ==> if m.0 == p.location.0 {
                occupant(pieces, (m.0, m.1)) is None && m.2 == 0
            } else {
                occupant(pieces, (m.0, m.1)) is Some && lands(p, pieces, m)
            },
{
    let f = p.file();
    let r = p.rank();
    let fwd = line(p, pieces, 0, 1, false);
    let left = line(p, pieces, -1, 1, true);
    let right = line(p, pieces, 1, 1, true);
    lemma_ray_steps(p, pieces, f + 0, r + 1, 0, 1, forward_reach(p), false, true);
    lemma_ray_steps(p, pieces, f - 1, r + 1, -1, 1, 1, true, false);
    lemma_ray_steps(p, pieces, f + 1, r + 1, 1, 1, 1, true, false);
    lemma_contains_concat(fwd, left);
    lemma_contains_concat(fwd + left, right);
    lemma_file_char(p.location.0);
    if 0 <= f - 1 {
        lemma_file_index(f - 1);
    }
    if f + 1 < 8 {
        lemma_file_index(f + 1);
    }
    assert(moves_of(p, pieces) == fwd + left + right);
}

/// The coordinate `t` steps from `f` in steps of `df`.
pub open spec fn point(f: int, df: int, t: int) -> int {
    f + t * df
}

/// A direction of a king's step: each coordinate changes by at most one.
pub open spec fn unit(df: int, dr: int) -> bool {
    -1 <= df <= 1 && -1 <= dr <= 1 && !(df == 0 && dr == 0)
}

proof fn lemma_point_shift(f: int, df: int, t: int)
    ensures
        point(f + df, df, t) == point(f, df, t + 1),
{
    assert(f + df + t * df == f + (t + 1) * df) by (nonlinear_arith);
}

proof fn lemma_unit_mul(t: int, d: int)
    requires
        -1 <= d <= 1,
    ensures
        t * d == (if d == 1 {
            t
        } else if d == 0 {
            0
        } else {
            -t
        }),
{
    if d == 1 {
        assert(t * 1 == t);
    } else if d == 0 {
        assert(t * 0 == 0);
    } else {
        assert(t * (-1) == -t);
    }
}

/// Two positive multiples of king-step directions agree only when the
/// directions and the multiples do.
proof fn lemma_same_direction(df: int, dr: int, ef: int, er: int, i: int, j: int)
    requires
        unit(df, dr),
        unit(ef, er),
        1 <= i,
        1 <= j,
        i * df == j * ef,
        i * dr == j * er,
    ensures
        df == ef,
        dr == er,
        i == j,
{
    lemma_unit_mul(i, df);
    lemma_unit_mul(i, dr);
    lemma_unit_mul(j, ef);
    lemma_unit_mul(j, er);
}

/// Where the `i`-th move of a ray stands: `i` steps from the ray's first
/// square, on the board, with every square before it empty.
proof fn lemma_ray_position(
    p: Piece,
    pieces: Seq<Piece>,
    f: int,
    r: int,
    df: int,
    dr: int,
    n: nat,
    capture: bool,
    quiet: bool,
    i: int,
)
    requires
        0 <= i < ray(p, pieces, f, r, df, dr, n, capture, quiet).len(),
    ensures
        on_board(point(f, df, i), point(r, dr, i)),
        (ray(p, pieces, f, r, df, dr, n, capture, quiet)[i].0, ray(
            p,
            pieces,
            f,
            r,
            df,
            dr,
            n,
            capture,
            quiet,
        )[i].1) == square_at(point(f, df, i), point(r, dr, i)),
        forall|t: int|
            0 <= t < i ==> !occupied(pieces, #[trigger] square_at(point(f, df, t), point(r, dr, t))),
    decreases n,
{
    let sq = square_at(f, r);
    assert(point(f, df, 0) == f && point(r, dr, 0) == r);
    if i > 0 {
        let rest = ray(p, pieces, f + df, r + dr, df, dr, (n - 1) as nat, capture, quiet);
        lemma_ray_position(p, pieces, f + df, r + dr, df, dr, (n - 1) as nat, capture, quiet, i - 1);
        lemma_point_shift(f, df, i - 1);
        lemma_point_shift(r, dr, i - 1);
        lemma_occupant(pieces, sq);
        assert forall|t: int| 0 <= t < i implies !occupied(
            pieces,
            #[trigger] square_at(point(f, df, t), point(r, dr, t)),
        ) by {
            if t > 0 {
                lemma_point_shift(f, df, t - 1);
                lemma_point_shift(r, dr, t - 1);
                assert(square_at(point(f + df, df, t - 1), point(r + dr, dr, t - 1)) == square_at(
                    point(f, df, t),
                    point(r, dr, t),
                ));
            }
        }
    }
}

/// The square `k` steps from `p` in direction (`df`, `dr`).
pub open spec fn along(p: Piece, df: int, dr: int, k: int) -> Square {
    square_at(point(p.file(), df, k), point(p.rank(), dr, k))
}

/// The square `k` steps from `p` in direction (`df`, `dr`) is on the board.
pub open spec fn along_on_board(p: Piece, df: int, dr: int, k: int) -> bool {
    on_board(point(p.file(), df, k), point(p.rank(), dr, k))
}

/// Along a rank or a file.
pub open spec fn straight(df: int, dr: int) -> bool {
    (df == 0 && (dr == 1 || dr == -1)) || (dr == 0 && (df == 1 || df == -1))
}

/// Along a diagonal.
pub open spec fn diagonal(df: int, dr: int) -> bool {
    (df == 1 || df == -1) && (dr == 1 || dr == -1)
}

/// Whether a piece of `kind` slides without limit in direction (`df`, `dr`).
pub open spec fn slides_along(kind: Types, df: int, dr: int) -> bool {
    match kind {
        Types::Rook => straight(df, dr),
        Types::Bishop => diagonal(df, dr),
        Types::Queen => straight(df, dr) || diagonal(df, dr),
        _ => false,
    }
}

/// A move of a line stands some `i >= 1` steps from the piece, on the
/// board, with every square before it empty.
proof fn lemma_line_position(p: Piece, pieces: Seq<Piece>, df: int, dr: int, capture: bool, m: Move) -> (i: int)
    requires
        line(p, pieces, df, dr, capture).contains(m),
    ensures
        1 <= i,
        along_on_board(p, df, dr, i),
        (m.0, m.1) == along(p, df, dr, i),
        forall|t: int| 1 <= t < i ==> !occupied(pieces, #[trigger] along(p, df, dr, t)),
{
    let l = line(p, pieces, df, dr, capture);
    let j = choose|j: int| 0 <= j < l.len() && l[j] == m;
    let (n, q) = if df == 0 && dr == 1 {
        (forward_reach(p), true)
    } else if crate::moves::pawn_diagonal(p, df, dr) {
        (1nat, false)
    } else {
        (reach(p), true)
    };
    let f = p.file() + df;
    let r = p.rank() + dr;
    assert(l == ray(p, pieces, f, r, df, dr, n, capture, q));
    lemma_ray_position(p, pieces, f, r, df, dr, n, capture, q, j);
    lemma_point_shift(p.file(), df, j);
    lemma_point_shift(p.rank(), dr, j);
    assert forall|t: int| 1 <= t < j + 1 implies !occupied(pieces, #[trigger] along(p, df, dr, t)) by {
        lemma_point_shift(p.file(), df, t - 1);
        lemma_point_shift(p.rank(), dr, t - 1);
        assert(square_at(point(f, df, t - 1), point(r, dr, t - 1)) == along(p, df, dr, t));
    }
    j + 1
}

/// The move `m` of a sliding piece lies on one of its eight lines.
proof fn lemma_sliding_line_of(p: Piece, pieces: Seq<Piece>, m: Move) -> (d: (int, int))
    requires
        p.kind == Types::Rook || p.kind == Types::Bishop || p.kind == Types::Queen,
        moves_of(p, pieces).contains(m),
    ensures
        unit(d.0, d.1),
        line(p, pieces, d.0, d.1, true).contains(m),
{
    let ps = pieces;
    lemma_parts(p, ps);
    if p.kind == Types::Queen {
        assert(across(p, ps).contains(m) || diagonals(p, ps).contains(m));
    }
    if p.kind != Types::Bishop && across(p, ps).contains(m) {
        if line(p, ps, 0, 1, true).contains(m) {
            (0, 1)
        } else if line(p, ps, 0, -1, true).contains(m) {
            (0, -1)
        } else if line(p, ps, 1, 0, true).contains(m) {
            (1, 0)
        } else {
            (-1, 0)
        }
    } else {
        assert(diagonals(p, ps).contains(m));
        if line(p, ps, 1, 1, true).contains(m) {
            (1, 1)
        } else if line(p, ps, -1, -1, true).contains(m) {
            (-1, -1)
        } else if line(p, ps, -1, 1, true).contains(m) {
            (-1, 1)
        } else {
            (1, -1)
        }
    }
}

/// Blocking is absolute: for a rook, bishop or queen, once some square on
/// one of its lines is occupied, no square further along that line is among
/// the moves that `legal_moves` returns.
pub proof fn lemma_blocking_is_absolute(p: Piece, pieces: Seq<Piece>, df: int, dr: int, k: int, j: int)
    requires
        p.on_board(),
        slides_along(p.kind, df, dr),
        1 <= k < j,
        along_on_board(p, df, dr, j),
        occupied(pieces, along(p, df, dr, k)),
    ensures
        forall|m: Move| #[trigger]
            moves_of(p, pieces).contains(m) ==> (m.0, m.1) != along(p, df, dr, j),
{
    assert forall|m: Move| #[trigger]
        moves_of(p, pieces).contains(m) implies (m.0, m.1) != along(p, df, dr, j) by {
        if (m.0, m.1) == along(p, df, dr, j) {
            let d = lemma_sliding_line_of(p, pieces, m);
            let i = lemma_line_position(p, pieces, d.0, d.1, true, m);
            lemma_square_at_injective(
                point(p.file(), d.0, i),
                point(p.rank(), d.1, i),
                point(p.file(), df, j),
                point(p.rank(), dr, j),
            );
            lemma_same_direction(d.0, d.1, df, dr, i, j);
            assert(!occupied(pieces, along(p, df, dr, k)));
        }
    }
}

/// The square `s` steps from (`f`, `r`) in direction (`df`, `dr`) is on the
/// board and empty.
pub open spec fn empty_at(pieces: Seq<Piece>, f: int, r: int, df: int, dr: int, s: int) -> bool {
    on_board(point(f, df, s), point(r, dr, s)) && !occupied(
        pieces,
        square_at(point(f, df, s), point(r, dr, s)),
    )
}

/// Over empty squares a quiet ray walks on: its moves from the `t`-th on
/// are the ray that starts `t` steps further out.
proof fn lemma_ray_reaches(
    p: Piece,
    pieces: Seq<Piece>,
    f: int,
    r: int,
    df: int,
    dr: int,
    n: nat,
    capture: bool,
    t: int,
)
    requires
        0 <= t <= n,
        forall|s: int| 0 <= s < t ==> #[trigger] empty_at(pieces, f, r, df, dr, s),
    ensures
        ray(p, pieces, f, r, df, dr, n, capture, true).len() == t + ray(
            p,
            pieces,
            point(f, df, t),
            point(r, dr, t),
            df,
            dr,
            (n - t) as nat,
            capture,
            true,
        ).len(),
        forall|x: int|
            0 <= x < ray(
                p,
                pieces,
                point(f, df, t),
                point(r, dr, t),
                df,
                dr,
                (n - t) as nat,
                capture,
                true,
            ).len() ==> ray(p, pieces, f, r, df, dr, n, capture, true)[t + x] == #[trigger] ray(
                p,
                pieces,
                point(f, df, t),
                point(r, dr, t),
                df,
                dr,
                (n - t) as nat,
                capture,
                true,
            )[x],
    decreases t,
{
    assert(point(f, df, 0) == f && point(r, dr, 0) == r);
    if t > 0 {
        assert(empty_at(pieces, f, r, df, dr, 0));
        lemma_occupant(pieces, square_at(f, r));
        let f2 = f + df;
        let r2 = r + dr;
        assert forall|s: int| 0 <= s < t - 1 implies #[trigger] empty_at(pieces, f2, r2, df, dr, s) by {
            lemma_point_shift(f, df, s);
            lemma_point_shift(r, dr, s);
            assert(empty_at(pieces, f, r, df, dr, s + 1));
        }
        lemma_ray_reaches(p, pieces, f2, r2, df, dr, (n - 1) as nat, capture, t - 1);
        lemma_point_shift(f, df, t - 1);
        lemma_point_shift(r, dr, t - 1);
    }
}

/// No square is the destination of two entries of `s`.
pub open spec fn no_square_twice(s: Seq<Move>) -> bool {
    forall|i: int, j: int|
        0 <= i < j < s.len() ==> (#[trigger] s[i].0, s[i].1) != (#[trigger] s[j].0, s[j].1)
}

/// The capturing lines of `p` in the directions `ds`, one after another.
pub open spec fn lines(p: Piece, pieces: Seq<Piece>, ds: Seq<(int, int)>) -> Seq<Move>
    decreases ds.len(),
{
    if ds.len() == 0 {
        seq![]
    } else {
        lines(p, pieces, ds.drop_last()) + line(p, pieces, ds.last().0, ds.last().1, true)
    }
}

/// The directions in which a rook, bishop or queen slides, in the order in
/// which `moves_of` lists their lines.
pub open spec fn sliding_directions(kind: Types) -> Seq<(int, int)> {
    let straight = seq![(0int, 1int), (0, -1), (1, 0), (-1, 0)];
    let diagonal = seq![(1int, 1int), (-1, -1), (-1, 1), (1, -1)];
    match kind {
        Types::Rook => straight,
        Types::Bishop => diagonal,
        _ => straight + diagonal,
    }
}

/// An entry of `lines` comes from the line of one of its directions.
proof fn lemma_lines_member(p: Piece, pieces: Seq<Piece>, ds: Seq<(int, int)>, m: Move) -> (k: int)
    requires
        lines(p, pieces, ds).contains(m),
    ensures
        0 <= k < ds.len(),
        line(p, pieces, ds[k].0, ds[k].1, true).contains(m),
    decreases ds.len(),
{
    let init = ds.drop_last();
    lemma_contains_concat(lines(p, pieces, init), line(p, pieces, ds.last().0, ds.last().1, true));
    if lines(p, pieces, init).contains(m) {
        lemma_lines_member(p, pieces, init, m)
    } else {
        ds.len() - 1
    }
}

/// Within one line no square comes twice.
proof fn lemma_line_no_repeat(p: Piece, pieces: Seq<Piece>, df: int, dr: int, capture: bool)
    requires
        unit(df, dr),
    ensures
        no_square_twice(line(p, pieces, df, dr, capture)),
{
    let l = line(p, pieces, df, dr, capture);
    let (n, q) = if df == 0 && dr == 1 {
        (forward_reach(p), true)
    } else if crate::moves::pawn_diagonal(p, df, dr) {
        (1nat, false)
    } else {
        (reach(p), true)
    };
    let f = p.file() + df;
    let r = p.rank() + dr;
    assert(l == ray(p, pieces, f, r, df, dr, n, capture, q));
    assert forall|i: int, j: int| 0 <= i < j < l.len() implies (#[trigger] l[i].0, l[i].1) != (
        #[trigger] l[j].0,
        l[j].1,
    ) by {
        lemma_ray_position(p, pieces, f, r, df, dr, n, capture, q, i);
        lemma_ray_position(p, pieces, f, r, df, dr, n, capture, q, j);
        if (l[i].0, l[i].1) == (l[j].0, l[j].1) {
            lemma_square_at_injective(point(f, df, i), point(r, dr, i), point(f, df, j), point(r, dr, j));
            lemma_unit_mul(i, df);
            lemma_unit_mul(i, dr);
            lemma_unit_mul(j, df);
            lemma_unit_mul(j, dr);
        }
    }
}

/// Lines in distinct king-step directions list no square twice.
proof fn lemma_lines_no_repeat(p: Piece, pieces: Seq<Piece>, ds: Seq<(int, int)>)
    requires
        forall|k: int| 0 <= k < ds.len() ==> unit(#[trigger] ds[k].0, ds[k].1),
        forall|k1: int, k2: int| 0 <= k1 < k2 < ds.len() ==> #[trigger] ds[k1] != #[trigger] ds[k2],
    ensures
        no_square_twice(lines(p, pieces, ds)),
    decreases ds.len(),
{
    if ds.len() > 0 {
        let init = ds.drop_last();
        let d = ds.last();
        let a = lines(p, pieces, init);
        let b = line(p, pieces, d.0, d.1, true);
        assert(unit(ds[ds.len() - 1].0, ds[ds.len() - 1].1));
        lemma_lines_no_repeat(p, pieces, init);
        lemma_line_no_repeat(p, pieces, d.0, d.1, true);
        let s = a + b;
        assert forall|i: int, j: int| 0 <= i < j < s.len() implies (#[trigger] s[i].0, s[i].1) != (
            #[trigger] s[j].0,
            s[j].1,
        ) by {
            if j < a.len() {
                assert(a[i] == s[i] && a[j] == s[j]);
            } else if i >= a.len() {
                assert(b[i - a.len()] == s[i] && b[j - a.len()] == s[j]);
            } else if (s[i].0, s[i].1) == (s[j].0, s[j].1) {
                let x = s[i];
                let y = s[j];
                assert(a[i] == x);
                assert(b[j - a.len()] == y);
                let k = lemma_lines_member(p, pieces, init, x);
                let e = init[k];
                assert(unit(ds[k].0, ds[k].1));
                let u = lemma_line_position(p, pieces, e.0, e.1, true, x);
                let v = lemma_line_position(p, pieces, d.0, d.1, true, y);
                lemma_square_at_injective(
                    point(p.file(), e.0, u),
                    point(p.rank(), e.1, u),
                    point(p.file(), d.0, v),
                    point(p.rank(), d.1, v),
                );
                lemma_same_direction(e.0, e.1, d.0, d.1, u, v);
                assert(ds[k] == ds[ds.len() - 1]);
            }
        }
    }
}

/// The lines of four directions, written out.
proof fn lemma_lines_four(p: Piece, pieces: Seq<Piece>, ds: Seq<(int, int)>)
    requires
        ds.len() == 4,
    ensures
        lines(p, pieces, ds) == line(p, pieces, ds[0].0, ds[0].1, true) + line(
            p,
            pieces,
            ds[1].0,
            ds[1].1,
            true,
        ) + line(p, pieces, ds[2].0, ds[2].1, true) + line(p, pieces, ds[3].0, ds[3].1, true),
{
    let d3 = ds.drop_last();
    let d2 = d3.drop_last();
    let d1 = d2.drop_last();
    let d0 = d1.drop_last();
    assert(d0.len() == 0);
    assert(lines(p, pieces, d0) == Seq::<Move>::empty());
    assert(lines(p, pieces, d1) =~= line(p, pieces, ds[0].0, ds[0].1, true));
    assert(lines(p, pieces, d2) == lines(p, pieces, d1) + line(p, pieces, ds[1].0, ds[1].1, true));
    assert(lines(p, pieces, d3) == lines(p, pieces, d2) + line(p, pieces, ds[2].0, ds[2].1, true));
}

/// The lines of `a + b` are those of `a` followed by those of `b`.
proof fn lemma_lines_append(p: Piece, pieces: Seq<Piece>, a: Seq<(int, int)>, b: Seq<(int, int)>)
    ensures
        lines(p, pieces, a + b) == lines(p, pieces, a) + lines(p, pieces, b),
    decreases b.len(),
{
    if b.len() == 0 {
        assert(a + b =~= a);
        assert(lines(p, pieces, a) + lines(p, pieces, b) =~= lines(p, pieces, a));
    } else {
        let last = b.last();
        let l = line(p, pieces, last.0, last.1, true);
        assert((a + b).drop_last() =~= a + b.drop_last());
        assert((a + b).last() == last);
        lemma_lines_append(p, pieces, a, b.drop_last());
        assert(lines(p, pieces, a + b) =~= lines(p, pieces, a) + (lines(p, pieces, b.drop_last()) + l));
    }
}

/// A rook, bishop or queen lists no destination twice among the moves that
/// `legal_moves` returns.
pub proof fn lemma_no_square_twice(p: Piece, pieces: Seq<Piece>)
    requires
        p.kind == Types::Rook || p.kind == Types::Bishop || p.kind == Types::Queen,
    ensures
        no_square_twice(moves_of(p, pieces)),
{
    let straight = seq![(0int, 1int), (0, -1), (1, 0), (-1, 0)];
    let diagonal = seq![(1int, 1int), (-1, -1), (-1, 1), (1, -1)];
    let ds = sliding_directions(p.kind);
    lemma_lines_four(p, pieces, straight);
    lemma_lines_four(p, pieces, diagonal);
    assert(lines(p, pieces, straight) == across(p, pieces));
    assert(lines(p, pieces, diagonal) == diagonals(p, pieces));
    if p.kind == Types::Queen {
        lemma_lines_append(p, pieces, straight, diagonal);
    }
    assert(lines(p, pieces, ds) == moves_of(p, pieces));
    lemma_lines_no_repeat(p, pieces, ds);
}

/// A rook's, bishop's or queen's line ends at the first enemy on it: with
/// the squares before it empty, the enemy's square is among the moves that
/// `legal_moves` returns, exactly once, scoring the sum of both pieces'
/// absolute values, and no square beyond it is.
pub proof fn lemma_capture_ends_line(p: Piece, pieces: Seq<Piece>, df: int, dr: int, k: int, e: int)
    requires
        p.on_board(),
        slides_along(p.kind, df, dr),
        scores_fit(p, pieces),
        squares_distinct(pieces),
        1 <= k,
        along_on_board(p, df, dr, k),
        forall|t: int| 1 <= t < k ==> !occupied(pieces, #[trigger] along(p, df, dr, t)),
        0 <= e < pieces.len(),
        pieces[e].location == along(p, df, dr, k),
        pieces[e].side != p.side,
    ensures
        moves_of(p, pieces).contains(
            (along(p, df, dr, k).0, along(p, df, dr, k).1, capture_score(p, pieces[e])),
        ),
        capture_score(p, pieces[e]) == abs(p.value as int) + abs(pieces[e].value as int),
        forall|j: int, m: Move|
            k < j && along_on_board(p, df, dr, j) && #[trigger] moves_of(p, pieces).contains(m) ==> (
            m.0,
            m.1,
        ) != #[trigger] along(p, df, dr, j),
        forall|i: int, j: int|
            0 <= i < moves_of(p, pieces).len() && 0 <= j < moves_of(p, pieces).len() && (
            #[trigger] moves_of(p, pieces)[i].0,
            moves_of(p, pieces)[i].1,
        ) == along(p, df, dr, k) && (#[trigger] moves_of(p, pieces)[j].0, moves_of(p, pieces)[j].1)
                == along(p, df, dr, k) ==> i == j,
{
    lemma_no_square_twice(p, pieces);
    let ps = pieces;
    let pf = p.file();
    let pr = p.rank();
    let sq = along(p, df, dr, k);
    let mv = (sq.0, sq.1, capture_score(p, pieces[e]));
    let l = line(p, ps, df, dr, true);
    let f = pf + df;
    let r = pr + dr;
    assert(l == ray(p, ps, f, r, df, dr, 7, true, true));
    lemma_unit_mul(k, df);
    lemma_unit_mul(k, dr);
    assert(k <= 7);
    assert forall|s: int| 0 <= s < k - 1 implies #[trigger] empty_at(ps, f, r, df, dr, s) by {
        lemma_point_shift(pf, df, s);
        lemma_point_shift(pr, dr, s);
        lemma_unit_mul(s + 1, df);
        lemma_unit_mul(s + 1, dr);
        assert(square_at(point(f, df, s), point(r, dr, s)) == along(p, df, dr, s + 1));
        assert(!occupied(ps, along(p, df, dr, s + 1)));
    }
    lemma_ray_reaches(p, ps, f, r, df, dr, 7, true, k - 1);
    lemma_point_shift(pf, df, k - 1);
    lemma_point_shift(pr, dr, k - 1);
    lemma_occupant_distinct(ps, e);
    let tail = ray(p, ps, point(f, df, k - 1), point(r, dr, k - 1), df, dr, (7 - (k - 1)) as nat, true, true);
    assert(tail[0] == mv);
    assert(l[k - 1] == mv);
    assert(l.contains(mv));
    lemma_parts(p, ps);
    if straight(df, dr) && p.kind != Types::Bishop {
        assert(across(p, ps).contains(mv));
    } else {
        assert(diagonals(p, ps).contains(mv));
    }
    assert(moves_of(p, ps).contains(mv));
    assert(abs(p.value as int) + abs(pieces[e].value as int) <= i32::MAX);
    assert(occupied(ps, sq));
    assert forall|j: int, m: Move|
        k < j && along_on_board(p, df, dr, j) && #[trigger] moves_of(p, pieces).contains(m) implies (
        m.0,
        m.1,
    ) != #[trigger] along(p, df, dr, j) by {
        lemma_blocking_is_absolute(p, pieces, df, dr, k, j);
    }
}

/// The first best move is unique: `best_move_out_of_these` has one answer.
pub proof fn lemma_first_best_unique(moves: Seq<Move>, i: int, j: int)
    requires
        is_first_best(moves, i),
        is_first_best(moves, j),
    ensures
        i == j,
{
    if i < j {
        assert(moves[i].2 < moves[j].2);
        assert(moves[j].2 <= moves[i].2);
    } else if j < i {
        assert(moves[j].2 < moves[i].2);
        assert(moves[i].2 <= moves[j].2);
    }
}

/// When every score is 0, `best_move_out_of_these` picks the first move.
pub proof fn lemma_all_zero_picks_first(moves: Seq<Move>)
    requires
        moves.len() > 0,
        forall|i: int| 0 <= i < moves.len() ==> #[trigger] moves[i].2 == 0,
    ensures
        forall|i: int| #[trigger] is_first_best(moves, i) <==> i == 0,
{
    assert(is_first_best(moves, 0));
    assert forall|i: int| #[trigger] is_first_best(moves, i) implies i == 0 by {
        lemma_first_best_unique(moves, i, 0);
    }
}

/// Blocking holds line by line, for every piece and every king-step
/// direction: once a square of the line is occupied, no square further
/// along it is among the moves that the line's direction function appends.
pub proof fn lemma_line_blocking(
    p: Piece,
    pieces: Seq<Piece>,
    df: int,
    dr: int,
    capture: bool,
    k: int,
    j: int,
)
    requires
        unit(df, dr),
        1 <= k < j,
        along_on_board(p, df, dr, j),
        occupied(pieces, along(p, df, dr, k)),
    ensures
        forall|m: Move| #[trigger]
            line(p, pieces, df, dr, capture).contains(m) ==> (m.0, m.1) != along(p, df, dr, j),
{
    assert forall|m: Move| #[trigger]
        line(p, pieces, df, dr, capture).contains(m) implies (m.0, m.1) != along(p, df, dr, j) by {
        if (m.0, m.1) == along(p, df, dr, j) {
            let i = lemma_line_position(p, pieces, df, dr, capture, m);
            lemma_square_at_injective(
                point(p.file(), df, i),
                point(p.rank(), dr, i),
                point(p.file(), df, j),
                point(p.rank(), dr, j),
            );
            lemma_same_direction(df, dr, df, dr, i, j);
            assert(!occupied(pieces, along(p, df, dr, k)));
        }
    }
}

/// The forward slide without capture, as `legal_forward_moves` appends it
/// with `can_capture` false, never goes onto an occupied square, friendly or
/// enemy, and scores nothing.
pub proof fn lemma_forward_without_capture_needs_empty(p: Piece, pieces: Seq<Piece>)
    ensures
        forall|m: Move| #[trigger]
            line(p, pieces, 0, 1, false).contains(m) ==> !occupied(pieces, (m.0, m.1)) && m.2 == 0,
{
    lemma_ray_steps(p, pieces, p.file() + 0, p.rank() + 1, 0, 1, forward_reach(p), false, true);
    assert forall|m: Move| #[trigger]
        line(p, pieces, 0, 1, false).contains(m) implies !occupied(pieces, (m.0, m.1)) && m.2 == 0 by {
        lemma_occupant(pieces, (m.0, m.1));
    }
}

} // verus!
