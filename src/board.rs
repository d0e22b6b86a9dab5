//! Coordinate model: files `A` to `H`, ranks 1 to 8.

use vstd::prelude::*;

verus! {

/// A square as (file letter, rank).
pub type Square = (char, u32);

/// The files of the board, in order.
pub open spec fn files() -> Seq<char> {
    seq!['A', 'B', 'C', 'D', 'E', 'F', 'G', 'H']
}

/// The ranks of the board, in order.
pub open spec fn ranks() -> Seq<u32> {
    seq![1, 2, 3, 4, 5, 6, 7, 8]
}

/// Zero-based index of a file letter, or -1 for a letter that names no file.
pub open spec fn file_index(c: char) -> int {
    if c == 'A' {
        0
    } else if c == 'B' {
        1
    } else if c == 'C' {
        2
    } else if c == 'D' {
        3
    } else if c == 'E' {
        4
    } else if c == 'F' {
        5
    } else if c == 'G' {
        6
    } else if c == 'H' {
        7
    } else {
        -1
    }
}

/// Whether zero-based file `f` and rank `r` lie on the board.
pub open spec fn on_board(f: int, r: int) -> bool {
    0 <= f < 8 && 1 <= r <= 8
}

/// The square at zero-based file `f` and rank `r` (meaningful on the board only).
pub open spec fn square_at(f: int, r: int) -> Square {
    (files()[f], r as u32)
}

/// Whether `sq` names a square of the board.
pub open spec fn is_square(sq: Square) -> bool {
    on_board(file_index(sq.0), sq.1 as int)
}

/// The file letters and their indices agree.
pub proof fn lemma_file_index(f: int)
    requires
        0 <= f < 8,
    ensures
        file_index(files()[f]) == f,
{
}

/// A file letter is the letter at its own index.
pub proof fn lemma_file_char(c: char)
    requires
        0 <= file_index(c),
    ensures
        files()[file_index(c)] == c,
{
}

/// Distinct board coordinates name distinct squares.
pub proof fn lemma_square_at_injective(f1: int, r1: int, f2: int, r2: int)
    requires
        on_board(f1, r1),
        on_board(f2, r2),
        square_at(f1, r1) == square_at(f2, r2),
    ensures
        f1 == f2,
        r1 == r2,
{
    lemma_file_index(f1);
    lemma_file_index(f2);
}

/// The files, `A` to `H`.
pub fn cols() -> (r: Vec<char>)
    ensures
        r@ == files(),
{
    let r: Vec<char> = vec!['A', 'B', 'C', 'D', 'E', 'F', 'G', 'H'];
    assert(r@ =~= files());
    r
}

/// The ranks, 1 to 8.
pub fn rows() -> (r: Vec<u32>)
    ensures
        r@ == ranks(),
{
    let r: Vec<u32> = vec![1, 2, 3, 4, 5, 6, 7, 8];
    assert(r@ =~= ranks());
    r
}

/// Zero-based index of the file letter `c`.
pub fn column(c: char) -> (r: usize)
    requires
        0 <= file_index(c),
    ensures
        r == file_index(c),
{
    match c {
        'A' => 0,
        'B' => 1,
        'C' => 2,
        'D' => 3,
        'E' => 4,
        'F' => 5,
        'G' => 6,
        _ => 7,
    }
}

/// Whether `sq` names a square of the board.
pub fn contains_square(sq: Square) -> (r: bool)
    ensures
        r == is_square(sq),
{
    let c = sq.0;
    let file = c == 'A' || c == 'B' || c == 'C' || c == 'D' || c == 'E' || c == 'F' || c == 'G' || c
        == 'H';
    file && 1 <= sq.1 && sq.1 <= 8
}

/// All 64 squares, file by file, each file from rank 1 up.
pub fn create() -> (r: Vec<Square>)
    ensures
        r@.len() == 64,
        forall|f: int, k: int|
            0 <= f < 8 && 0 <= k < 8 ==> #[trigger] r@[8 * f + k] == square_at(f, k + 1),
{
    let cols = cols();
    let rows = rows();
    let mut locations: Vec<Square> = Vec::new();
    for i in 0..cols.len()
        invariant
            cols@ == files(),
            rows@ == ranks(),
            locations@.len() == 8 * i,
            forall|f: int, k: int|
                0 <= f < i && 0 <= k < 8 ==> #[trigger] locations@[8 * f + k] == square_at(f, k + 1),
    {
        for j in 0..rows.len()
            invariant
                cols@ == files(),
                rows@ == ranks(),
                0 <= i < 8,
                locations@.len() == 8 * i + j,
                forall|f: int, k: int|
                    0 <= f < i && 0 <= k < 8 ==> #[trigger] locations@[8 * f + k] == square_at(f, k + 1),
                forall|k: int| 0 <= k < j ==> #[trigger] locations@[8 * i + k] == square_at(i as int, k + 1),
        {
            locations.push((cols[i], rows[j]));
        }
    }
    locations
}

} // verus!
