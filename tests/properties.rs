use chess_moves::board;
use chess_moves::piece::{self, Piece, Sides, Types};

fn all_kinds() -> Vec<Types> {
    vec![Types::Pawn, Types::Rook, Types::Bishop, Types::Knight, Types::Queen, Types::King]
}

fn holder<'a>(pieces: &'a [Piece], sq: (char, u32)) -> Option<&'a Piece> {
    pieces.iter().find(|p| p.location == sq)
}

#[test]
fn no_piece_ever_moves_onto_a_friendly_square() {
    let pieces = piece::generate_all();
    for kind in all_kinds() {
        for sq in board::create() {
            if holder(&pieces, sq).is_some() {
                continue;
            }
            let mover = piece::build(kind, Sides::White, sq, 3);
            for m in mover.legal_moves(&pieces) {
                if let Some(p) = holder(&pieces, (m.0, m.1)) {
                    assert!(p.side != Sides::White);
                }
            }
        }
    }
}

#[test]
fn rook_never_passes_a_blocker() {
    let pieces = vec![piece::build(Types::Knight, Sides::White, ('E', 6), 3)];
    let rook = piece::build(Types::Rook, Sides::White, ('E', 2), 5);
    let moves = rook.legal_moves(&pieces);
    assert!(moves.contains(&('E', 5, 0)));
    assert!(!moves.iter().any(|m| m.0 == 'E' && m.1 >= 6));
}

#[test]
fn bishop_captures_once_and_stops() {
    let pieces = vec![
        piece::build(Types::Pawn, Sides::Black, ('F', 5), -1),
        piece::build(Types::Pawn, Sides::Black, ('H', 7), -1),
    ];
    let bishop = piece::build(Types::Bishop, Sides::White, ('D', 3), 3);
    let moves = bishop.legal_moves(&pieces);
    assert_eq!(moves.iter().filter(|m| (m.0, m.1) == ('F', 5)).count(), 1);
    assert!(moves.contains(&('F', 5, 4)));
    assert!(!moves.iter().any(|m| (m.0, m.1) == ('G', 6) || (m.0, m.1) == ('H', 7)));
}

#[test]
fn queen_line_ends_at_enemy() {
    let pieces = vec![piece::build(Types::Rook, Sides::Black, ('B', 4), -5)];
    let queen = piece::build(Types::Queen, Sides::White, ('E', 4), 9);
    let moves = queen.legal_moves(&pieces);
    assert!(moves.contains(&('B', 4, 14)));
    assert!(!moves.iter().any(|m| (m.0, m.1) == ('A', 4)));
}

#[test]
fn pawn_forward_slide_never_onto_occupied_square() {
    let pieces = vec![piece::build(Types::Pawn, Sides::White, ('D', 4), 1)];
    let pawn = piece::build(Types::Pawn, Sides::White, ('D', 2), 1);
    assert!(pawn.legal_moves(&pieces) == [('D', 3, 0)]);
}

#[test]
fn pawn_diagonals_only_onto_enemies() {
    let pieces = vec![piece::build(Types::Bishop, Sides::Black, ('G', 4), -3)];
    let pawn = piece::build(Types::Pawn, Sides::White, ('F', 3), 1);
    let moves = pawn.legal_moves(&pieces);
    assert!(moves == [('F', 4, 0), ('F', 5, 0), ('G', 4, 4)]);
    assert!(!moves.iter().any(|m| (m.0, m.1) == ('E', 4)));
}

#[test]
fn squares_on_and_off_the_board() {
    assert!(board::contains_square(('A', 1)));
    assert!(board::contains_square(('H', 8)));
    assert!(!board::contains_square(('I', 1)));
    assert!(!board::contains_square(('A', 0)));
    assert!(!board::contains_square(('A', 9)));
}

#[test]
fn capture_scores_fit_detects_overflow() {
    let pieces = vec![piece::build(Types::Queen, Sides::Black, ('D', 8), i32::MIN)];
    let rook = piece::build(Types::Rook, Sides::White, ('D', 1), 5);
    assert!(!rook.capture_scores_fit(&pieces));
    let friendly = vec![piece::build(Types::Queen, Sides::White, ('D', 8), i32::MIN)];
    assert!(rook.capture_scores_fit(&friendly));
    assert!(rook.capture_scores_fit(&piece::generate_all()));
}

#[test]
fn largest_scores_that_fit() {
    let pieces = vec![piece::build(Types::Queen, Sides::Black, ('D', 8), -(i32::MAX - 5))];
    let rook = piece::build(Types::Rook, Sides::White, ('D', 1), 5);
    assert!(rook.capture_scores_fit(&pieces));
    assert!(rook.legal_moves(&pieces).contains(&('D', 8, i32::MAX)));
}

#[test]
fn sliding_pieces_list_each_square_once() {
    let pieces = vec![piece::build(Types::Pawn, Sides::Black, ('D', 7), -1)];
    for kind in [Types::Rook, Types::Bishop, Types::Queen] {
        let mover = piece::build(kind, Sides::White, ('D', 4), 5);
        let moves = mover.legal_moves(&pieces);
        for i in 0..moves.len() {
            for j in i + 1..moves.len() {
                assert!((moves[i].0, moves[i].1) != (moves[j].0, moves[j].1));
            }
        }
    }
    let queen = piece::build(Types::Queen, Sides::White, ('D', 4), 9);
    assert_eq!(queen.legal_moves(&[]).len(), 27);
}

#[test]
fn forward_slide_without_capture_stops_before_enemy() {
    let pieces = vec![piece::build(Types::Rook, Sides::Black, ('B', 5), -5)];
    let rook = piece::build(Types::Rook, Sides::White, ('B', 2), 5);
    assert!(rook.legal_forward_moves(vec![], &pieces, false) == [('B', 3, 0), ('B', 4, 0)]);
    assert!(rook.legal_forward_moves(vec![], &pieces, true) == [('B', 3, 0), ('B', 4, 0), ('B', 5, 10)]);
}
