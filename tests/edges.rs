use chess_moves::board;
use chess_moves::piece::{self, Piece, Sides, Types};

fn lone(kind: Types, side: Sides, at: (char, u32), value: i32) -> Piece {
    piece::build(kind, side, at, value)
}

#[test]
fn board_has_sixty_four_squares_file_by_file() {
    let squares = board::create();
    assert_eq!(squares.len(), 64);
    assert_eq!(squares[0], ('A', 1));
    assert_eq!(squares[7], ('A', 8));
    assert_eq!(squares[8], ('B', 1));
    assert_eq!(squares[63], ('H', 8));
}

#[test]
fn files_and_ranks_in_order() {
    assert_eq!(board::cols(), vec!['A', 'B', 'C', 'D', 'E', 'F', 'G', 'H']);
    assert_eq!(board::rows(), vec![1, 2, 3, 4, 5, 6, 7, 8]);
    assert_eq!(board::column('A'), 0);
    assert_eq!(board::column('E'), 4);
    assert_eq!(board::column('H'), 7);
}

#[test]
fn build_makes_an_unmoved_piece() {
    let p = piece::build(Types::Queen, Sides::Black, ('D', 8), -9);
    assert!(p.kind == Types::Queen);
    assert!(p.side == Sides::Black);
    assert_eq!(p.location, ('D', 8));
    assert_eq!(p.value, -9);
    assert!(!p.has_moved);
}

#[test]
fn roster_holds_thirty_two_pieces_in_order() {
    let pieces = piece::generate_all();
    assert_eq!(pieces.len(), 32);
    assert!(pieces[0].kind == Types::Rook && pieces[0].location == ('A', 1));
    assert!(pieces[3].kind == Types::Queen && pieces[3].value == 9);
    assert!(pieces[8].kind == Types::Pawn && pieces[8].location == ('A', 2));
    assert!(pieces[19].kind == Types::Queen && pieces[19].side == Sides::Black);
    assert_eq!(pieces[19].value, -9);
    assert!(pieces[31].location == ('H', 7) && pieces[31].side == Sides::Black);
}

#[test]
fn select_best_on_empty_list_is_none() {
    assert_eq!(piece::best_move_out_of_these(vec![]), None);
}

#[test]
fn select_best_all_zero_returns_first() {
    let moves = vec![('C', 3, 0), ('A', 1, 0), ('H', 8, 0)];
    assert_eq!(piece::best_move_out_of_these(moves), Some(('C', 3, 0)));
}

#[test]
fn select_best_ties_keep_first() {
    let moves = vec![('C', 3, 1), ('A', 1, 7), ('H', 8, 7), ('B', 2, 3)];
    assert_eq!(piece::best_move_out_of_these(moves), Some(('A', 1, 7)));
}

#[test]
fn rook_on_empty_board_stays_on_ranks_one_to_eight() {
    let rook = lone(Types::Rook, Sides::White, ('A', 2), 5);
    let moves = rook.legal_moves(&[]);
    assert_eq!(moves.len(), 14);
    assert!(moves.contains(&('A', 1, 0)));
    assert!(moves.contains(&('A', 8, 0)));
    assert!(moves.iter().all(|m| m.1 >= 1 && m.1 <= 8));
}

#[test]
fn king_on_corner_has_three_moves() {
    let king = lone(Types::King, Sides::White, ('H', 1), 0);
    assert!(king.legal_moves(&[]) == [('H', 2, 0), ('G', 1, 0), ('G', 2, 0)]);
}

#[test]
fn knight_on_corner_has_two_jumps() {
    let knight = lone(Types::Knight, Sides::Black, ('A', 1), -3);
    assert!(knight.legal_moves(&[]) == [('B', 3, 0), ('C', 2, 0)]);
}

#[test]
fn knight_skips_friendly_squares_but_keeps_later_jumps() {
    let pieces = vec![lone(Types::Pawn, Sides::White, ('F', 6), 1)];
    let knight = lone(Types::Knight, Sides::White, ('E', 4), 3);
    assert!(
        knight.legal_moves(&pieces)
            == [
                ('D', 6, 0),
                ('F', 2, 0),
                ('D', 2, 0),
                ('G', 5, 0),
                ('C', 5, 0),
                ('G', 3, 0),
                ('C', 3, 0)
            ]
    );
}

#[test]
fn moved_pawn_steps_once() {
    let mut pawn = lone(Types::Pawn, Sides::White, ('C', 4), 1);
    pawn.has_moved = true;
    assert!(pawn.legal_moves(&[]) == [('C', 5, 0)]);
}

#[test]
fn pawn_cannot_capture_straight_ahead() {
    let pieces = vec![lone(Types::Rook, Sides::Black, ('C', 3), -5)];
    let pawn = lone(Types::Pawn, Sides::White, ('C', 2), 1);
    assert!(pawn.legal_moves(&pieces) == []);
}

#[test]
fn pawn_ignores_friendly_diagonal() {
    let pieces = vec![
        lone(Types::Knight, Sides::White, ('B', 3), 3),
        lone(Types::Knight, Sides::Black, ('D', 3), -3),
    ];
    let pawn = lone(Types::Pawn, Sides::White, ('C', 2), 1);
    assert!(pawn.legal_moves(&pieces) == [('C', 3, 0), ('C', 4, 0), ('D', 3, 4)]);
}

#[test]
fn black_capturing_scores_sum_of_magnitudes() {
    let pieces = vec![lone(Types::Queen, Sides::White, ('D', 6), 9)];
    let rook = lone(Types::Rook, Sides::Black, ('D', 8), -5);
    let moves = rook.legal_moves(&pieces);
    assert!(moves.contains(&('D', 7, 0)));
    assert!(moves.contains(&('D', 6, 14)));
    assert!(!moves.contains(&('D', 5, 0)));
}

#[test]
fn scan_ray_stops_at_first_enemy() {
    let pieces = vec![
        lone(Types::Pawn, Sides::Black, ('E', 6), -1),
        lone(Types::Pawn, Sides::Black, ('E', 7), -1),
    ];
    let rook = lone(Types::Rook, Sides::White, ('E', 4), 5);
    let moves = rook.scan_ray(vec![('Z', 0, 0)], &pieces, 0, 1, 7, true, true);
    assert!(moves == [('Z', 0, 0), ('E', 5, 0), ('E', 6, 6)]);
}

#[test]
fn scan_ray_without_capture_stops_before_enemy() {
    let pieces = vec![lone(Types::Pawn, Sides::Black, ('G', 6), -1)];
    let bishop = lone(Types::Bishop, Sides::White, ('E', 4), 3);
    let moves = bishop.scan_ray(vec![], &pieces, 1, 1, 7, false, true);
    assert!(moves == [('F', 5, 0)]);
}

#[test]
fn scan_ray_respects_step_cap() {
    let rook = lone(Types::Rook, Sides::White, ('A', 1), 5);
    let moves = rook.scan_ray(vec![], &[], 1, 0, 3, true, true);
    assert!(moves == [('B', 1, 0), ('C', 1, 0), ('D', 1, 0)]);
}

#[test]
fn isolated_rook_forward_ray_captures_e7_and_stops() {
    let pieces = piece::generate_all();
    let rook = lone(Types::Rook, Sides::White, ('E', 4), 5);
    let moves = rook.legal_forward_moves(vec![], &pieces, true);
    assert!(moves == [('E', 5, 0), ('E', 6, 0), ('E', 7, 6)]);
}

#[test]
fn direction_helpers_append_after_given_moves() {
    let rook = lone(Types::Rook, Sides::White, ('D', 4), 5);
    let seed = vec![('A', 1, 9)];
    assert!(rook.legal_backward_moves(seed.clone(), &[], true) == [('A', 1, 9), ('D', 3, 0), ('D', 2, 0), ('D', 1, 0)]);
    assert!(rook.legal_right_to_left_moves(seed.clone(), &[], true) == [('A', 1, 9), ('C', 4, 0), ('B', 4, 0), ('A', 4, 0)]);
    assert!(rook.legal_left_to_right_moves(vec![], &[], true) == [('E', 4, 0), ('F', 4, 0), ('G', 4, 0), ('H', 4, 0)]);
    assert!(rook.legal_diag_left_to_right_moves(vec![], &[], true).len() == 4);
    assert!(rook.legal_diag_left_to_right_backwards_moves(vec![], &[], true) == [('E', 3, 0), ('F', 2, 0), ('G', 1, 0)]);
    assert!(rook.legal_diag_right_to_left_moves(vec![], &[], true) == [('C', 5, 0), ('B', 6, 0), ('A', 7, 0)]);
    assert!(rook.legal_diag_right_to_left_backwards_moves(vec![], &[], true) == [('C', 3, 0), ('B', 2, 0), ('A', 1, 0)]);
    assert_eq!(rook.legal_accross_all(vec![], &[]).len(), 14);
    assert_eq!(rook.legal_diag_all(vec![], &[]).len(), 13);
    assert!(rook.legal_l_forward_moves(vec![], &[]) == [('E', 6, 0), ('C', 6, 0)]);
    assert!(rook.legal_l_backward_moves(vec![], &[]) == [('E', 2, 0), ('C', 2, 0)]);
    assert_eq!(rook.legal_l_moves(vec![], &[]).len(), 8);
}

#[test]
fn knight_halves_on_standard_board() {
    let pieces = piece::generate_all();
    let knight = lone(Types::Knight, Sides::White, ('E', 6), 3);
    assert!(knight.legal_l_forward_moves(vec![], &pieces) == [('F', 8, 6), ('D', 8, 12)]);
    assert!(knight.legal_l_backward_moves(vec![], &pieces) == [('F', 4, 0), ('D', 4, 0)]);
}

#[test]
fn knight_near_first_rank_has_no_backward_jumps() {
    let knight = lone(Types::Knight, Sides::White, ('E', 2), 3);
    assert!(knight.legal_l_backward_moves(vec![('A', 1, 0)], &[]) == [('A', 1, 0)]);
    let corner = lone(Types::Knight, Sides::White, ('B', 1), 3);
    assert!(corner.legal_l_backward_moves(vec![], &[]) == []);
}

#[test]
fn pawn_slides_sideways_and_back_when_asked() {
    let pawn = lone(Types::Pawn, Sides::White, ('E', 4), 1);
    assert!(pawn.legal_left_to_right_moves(vec![], &[], true) == [('F', 4, 0), ('G', 4, 0), ('H', 4, 0)]);
    assert!(pawn.legal_right_to_left_moves(vec![], &[], true) == [('D', 4, 0), ('C', 4, 0), ('B', 4, 0), ('A', 4, 0)]);
    assert!(pawn.legal_backward_moves(vec![], &[], true) == [('E', 3, 0), ('E', 2, 0), ('E', 1, 0)]);
    assert!(pawn.legal_diag_left_to_right_backwards_moves(vec![], &[], true) == [('F', 3, 0), ('G', 2, 0), ('H', 1, 0)]);
    assert!(pawn.legal_diag_left_to_right_moves(vec![], &[], true) == []);
    assert!(pawn.legal_diag_right_to_left_moves(vec![], &[], true) == []);
}
