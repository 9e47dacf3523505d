use board_rules::board::{find_move_to, is_valid_dimension, Board, MoveError};
use board_rules::coords::{algebraic_to_coords, coords_to_algebraic, parse_numeral, CoordError};
use board_rules::game::{GameState, SelectError};
use board_rules::pieces::{MoveDetail, Piece, PieceType, PlayerColor};

fn piece(t: PieceType, c: PlayerColor) -> Option<Piece> {
    Some(Piece::new(t, c))
}

fn dests(moves: &[MoveDetail]) -> Vec<(usize, usize)> {
    moves.iter().map(|m| (m.to_r, m.to_c)).collect()
}

fn empty_board(width: usize, height: usize) -> Board {
    let mut b = Board::new(width, height);
    for r in 0..height {
        for c in 0..width {
            b.grid[r][c] = None;
        }
    }
    b
}

#[test]
fn parse_plain_label() {
    assert_eq!(algebraic_to_coords("C3", 6, 8), Ok((2, 2)));
    assert_eq!(algebraic_to_coords("A1", 6, 8), Ok((0, 0)));
    assert_eq!(algebraic_to_coords("H6", 6, 8), Ok((5, 7)));
}

#[test]
fn parse_is_case_insensitive() {
    assert_eq!(algebraic_to_coords("c3", 6, 8), Ok((2, 2)));
    assert_eq!(algebraic_to_coords("h6", 6, 8), Ok((5, 7)));
}

#[test]
fn parse_two_digit_row() {
    assert_eq!(algebraic_to_coords("B12", 12, 12), Ok((11, 1)));
    assert_eq!(algebraic_to_coords("B13", 12, 12), Err(CoordError::Range));
}

#[test]
fn parse_format_errors() {
    assert_eq!(algebraic_to_coords("", 6, 8), Err(CoordError::Format));
    assert_eq!(algebraic_to_coords("A", 6, 8), Err(CoordError::Format));
    assert_eq!(algebraic_to_coords("Ax", 6, 8), Err(CoordError::Format));
    assert_eq!(algebraic_to_coords("A-1", 6, 8), Err(CoordError::Format));
    assert_eq!(algebraic_to_coords("A+", 6, 8), Err(CoordError::Format));
    assert_eq!(algebraic_to_coords("A99999999999999999999999", 6, 8), Err(CoordError::Format));
}

#[test]
fn parse_range_errors() {
    assert_eq!(algebraic_to_coords("A0", 6, 8), Err(CoordError::Range));
    assert_eq!(algebraic_to_coords("A7", 6, 8), Err(CoordError::Range));
    assert_eq!(algebraic_to_coords("I1", 6, 8), Err(CoordError::Range));
    assert_eq!(algebraic_to_coords("11", 6, 8), Err(CoordError::Range));
}

#[test]
fn parse_accepts_plus_sign() {
    assert_eq!(algebraic_to_coords("A+3", 6, 8), Ok((2, 0)));
}

#[test]
fn numeral_values() {
    assert_eq!(parse_numeral("0"), Some(0));
    assert_eq!(parse_numeral("407"), Some(407));
    assert_eq!(parse_numeral(""), None);
    assert_eq!(parse_numeral("4a"), None);
}

#[test]
fn format_labels() {
    assert_eq!(coords_to_algebraic(2, 2, 6), "C3");
    assert_eq!(coords_to_algebraic(0, 0, 6), "A1");
    assert_eq!(coords_to_algebraic(9, 11, 12), "L10");
}

#[test]
fn format_then_parse_round_trip() {
    for h in 6..=12 {
        for w in 6..=12 {
            for r in 0..h {
                for c in 0..w {
                    let label = coords_to_algebraic(r, c, h);
                    assert_eq!(algebraic_to_coords(&label, h, w), Ok((r, c)));
                }
            }
        }
    }
}

#[test]
fn dimensions() {
    assert!(!is_valid_dimension(5));
    assert!(is_valid_dimension(6));
    assert!(is_valid_dimension(12));
    assert!(!is_valid_dimension(13));
}

#[test]
fn opponent_swaps() {
    assert_eq!(PlayerColor::White.opponent(), PlayerColor::Black);
    assert_eq!(PlayerColor::Black.opponent(), PlayerColor::White);
}

#[test]
fn piece_symbols() {
    assert_eq!(Piece::new(PieceType::ProductOwner, PlayerColor::White).symbol(), '♔');
    assert_eq!(Piece::new(PieceType::Developer, PlayerColor::Black).symbol(), '♜');
    assert_eq!(Piece::new(PieceType::Designer, PlayerColor::White).symbol(), '♘');
}

#[test]
fn initial_layout_eight_by_six() {
    let b = Board::new(8, 6);
    assert_eq!(b.get_piece(0, 0), piece(PieceType::ProductOwner, PlayerColor::White));
    assert_eq!(b.get_piece(0, 1), piece(PieceType::Developer, PlayerColor::White));
    assert_eq!(b.get_piece(0, 2), piece(PieceType::Designer, PlayerColor::White));
    assert_eq!(b.get_piece(5, 7), piece(PieceType::ProductOwner, PlayerColor::Black));
    assert_eq!(b.get_piece(5, 6), piece(PieceType::Developer, PlayerColor::Black));
    assert_eq!(b.get_piece(5, 5), piece(PieceType::Designer, PlayerColor::Black));
    let mut count = 0;
    for r in 0..6 {
        for c in 0..8 {
            if b.get_piece(r, c).is_some() {
                count += 1;
            }
        }
    }
    assert_eq!(count, 6);
}

#[test]
fn get_piece_off_board_is_none() {
    let b = Board::new(8, 6);
    assert_eq!(b.get_piece(6, 0), None);
    assert_eq!(b.get_piece(0, 8), None);
}

#[test]
fn royal_moves_from_corner() {
    let b = Board::new(8, 6);
    let p = b.get_piece(0, 0).unwrap();
    let moves = b.calculate_valid_moves(0, 0, p);
    assert_eq!(dests(&moves), vec![(1, 0), (1, 1)]);
    assert!(moves.iter().all(|m| !m.is_capture));
}

#[test]
fn leaper_moves_from_home() {
    let b = Board::new(8, 6);
    let p = b.get_piece(0, 2).unwrap();
    let moves = b.calculate_valid_moves(0, 2, p);
    assert_eq!(dests(&moves), vec![(1, 4), (1, 0), (2, 3), (2, 1)]);
}

#[test]
fn runner_moves_from_home() {
    let b = Board::new(8, 6);
    let p = b.get_piece(0, 1).unwrap();
    let moves = b.calculate_valid_moves(0, 1, p);
    assert_eq!(dests(&moves), vec![(1, 0), (1, 1), (2, 1), (3, 1), (1, 2), (2, 3), (3, 4)]);
    assert!(!dests(&moves).contains(&(0, 0)));
    assert!(!dests(&moves).contains(&(0, 2)));
}

#[test]
fn landing_capture_and_own_piece() {
    let mut b = empty_board(8, 8);
    b.grid[3][3] = piece(PieceType::ProductOwner, PlayerColor::White);
    b.grid[4][4] = piece(PieceType::Designer, PlayerColor::Black);
    b.grid[2][2] = piece(PieceType::Developer, PlayerColor::White);
    let moves = b.calculate_valid_moves(3, 3, b.get_piece(3, 3).unwrap());
    assert_eq!(moves.len(), 7);
    assert!(!dests(&moves).contains(&(2, 2)));
    let cap = moves.iter().find(|m| m.to_r == 4 && m.to_c == 4).unwrap();
    assert!(cap.is_capture);
    assert_eq!(cap.jumped_piece_coord, None);
}

#[test]
fn runner_stops_at_any_piece() {
    let mut b = empty_board(8, 8);
    b.grid[2][2] = piece(PieceType::Developer, PlayerColor::White);
    b.grid[3][2] = piece(PieceType::Designer, PlayerColor::Black);
    let moves = b.calculate_valid_moves(2, 2, b.get_piece(2, 2).unwrap());
    assert!(!dests(&moves).contains(&(3, 2)));
    assert!(!dests(&moves).contains(&(4, 2)));
    assert!(dests(&moves).contains(&(1, 2)));
    assert!(dests(&moves).contains(&(0, 2)));
    assert!(moves.iter().all(|m| !m.is_capture));
    assert_eq!(moves.len(), 16);
}

#[test]
fn runner_jump_over_adjacent_opponent_is_refused() {
    let mut g = GameState::new(8, 8);
    g.board = empty_board(8, 8);
    g.board.grid[0][0] = piece(PieceType::ProductOwner, PlayerColor::White);
    g.board.grid[7][7] = piece(PieceType::ProductOwner, PlayerColor::Black);
    g.board.grid[2][2] = piece(PieceType::Developer, PlayerColor::White);
    g.board.grid[3][2] = piece(PieceType::Designer, PlayerColor::Black);
    assert_eq!(g.attempt_move(2, 2, 4, 2), Err(MoveError::IllegalDestination));
    assert_eq!(g.board.get_piece(3, 2), piece(PieceType::Designer, PlayerColor::Black));
    assert_eq!(g.board.get_piece(2, 2), piece(PieceType::Developer, PlayerColor::White));
    assert_eq!(g.board.get_piece(4, 2), None);
}

#[test]
fn jump_capture_removes_jumped_piece() {
    let mut b = empty_board(8, 8);
    b.grid[2][2] = piece(PieceType::Developer, PlayerColor::White);
    b.grid[3][2] = piece(PieceType::Designer, PlayerColor::Black);
    let list = vec![MoveDetail { to_r: 4, to_c: 2, is_capture: true, jumped_piece_coord: Some((3, 2)) }];
    let res = b.move_piece(2, 2, 4, 2, PlayerColor::White, &list);
    assert_eq!(res, Ok(piece(PieceType::Designer, PlayerColor::Black)));
    assert_eq!(b.get_piece(3, 2), None);
    assert_eq!(b.get_piece(2, 2), None);
    assert_eq!(b.get_piece(4, 2), piece(PieceType::Developer, PlayerColor::White));
}

#[test]
fn move_piece_errors_leave_board() {
    let mut b = Board::new(8, 6);
    let list = b.calculate_valid_moves(0, 1, b.get_piece(0, 1).unwrap());
    assert_eq!(b.move_piece(2, 2, 3, 3, PlayerColor::White, &list), Err(MoveError::NoPiece));
    assert_eq!(b.move_piece(0, 1, 1, 1, PlayerColor::Black, &list), Err(MoveError::WrongColor));
    assert_eq!(b.move_piece(0, 1, 0, 1, PlayerColor::White, &list), Err(MoveError::SameSquare));
    assert_eq!(b.move_piece(0, 1, 0, 0, PlayerColor::White, &list), Err(MoveError::IllegalDestination));
    let fresh = Board::new(8, 6);
    assert_eq!(b.grid, fresh.grid);
}

#[test]
fn find_move_takes_first() {
    let list = vec![
        MoveDetail { to_r: 1, to_c: 1, is_capture: false, jumped_piece_coord: None },
        MoveDetail { to_r: 2, to_c: 2, is_capture: false, jumped_piece_coord: None },
        MoveDetail { to_r: 2, to_c: 2, is_capture: true, jumped_piece_coord: None },
    ];
    assert!(!find_move_to(&list, 2, 2).unwrap().is_capture);
    assert!(find_move_to(&list, 3, 3).is_none());
}

#[test]
fn select_runner_and_illegal_destination() {
    let mut g = GameState::new(8, 6);
    let (r, c) = algebraic_to_coords("B1", 6, 8).unwrap();
    assert_eq!(g.select_piece(r, c), Ok(()));
    assert_eq!(g.selected_square_coords, Some((0, 1)));
    let moves = g.available_moves_for_selected.clone().unwrap();
    assert!(!moves.is_empty());
    assert!(!dests(&moves).contains(&(0, 0)));
    assert!(!dests(&moves).contains(&(0, 2)));
    let (tr, tc) = algebraic_to_coords("A1", 6, 8).unwrap();
    assert_eq!(g.attempt_move(r, c, tr, tc), Err(MoveError::IllegalDestination));
    assert!(g.board.get_piece(0, 1).is_some());
    assert_eq!(g.attempt_move(0, 1, 5, 1), Err(MoveError::IllegalDestination));
    assert!(g.board.get_piece(0, 1).is_some());
    assert_eq!(g.current_player, PlayerColor::White);
}

#[test]
fn select_errors() {
    let mut g = GameState::new(8, 6);
    assert_eq!(g.select_piece(3, 3), Err(SelectError::NoPiece));
    assert_eq!(g.select_piece(5, 7), Err(SelectError::WrongColor));
    assert_eq!(g.selected_square_coords, None);
}

#[test]
fn attempt_move_errors() {
    let mut g = GameState::new(8, 6);
    assert_eq!(g.attempt_move(3, 3, 3, 4), Err(MoveError::NoPiece));
    assert_eq!(g.attempt_move(5, 7, 4, 7), Err(MoveError::WrongColor));
    assert_eq!(g.attempt_move(0, 0, 0, 0), Err(MoveError::SameSquare));
}

#[test]
fn move_switches_turn() {
    let mut g = GameState::new(8, 6);
    g.select_piece(0, 1).unwrap();
    assert_eq!(g.attempt_move(0, 1, 3, 1), Ok(None));
    assert_eq!(g.current_player, PlayerColor::Black);
    assert_eq!(g.selected_square_coords, None);
    assert!(g.available_moves_for_selected.is_none());
    assert_eq!(g.board.get_piece(3, 1), piece(PieceType::Developer, PlayerColor::White));
    assert_eq!(g.board.get_piece(0, 1), None);
    assert_eq!(g.attempt_move(5, 7, 4, 7), Ok(None));
    assert_eq!(g.current_player, PlayerColor::White);
    assert!(!g.game_over);
}

#[test]
fn stale_selection_is_not_used_for_other_square() {
    let mut g = GameState::new(8, 6);
    g.select_piece(0, 1).unwrap();
    assert_eq!(g.attempt_move(0, 2, 2, 3), Ok(None));
    assert_eq!(g.board.get_piece(2, 3), piece(PieceType::Designer, PlayerColor::White));
}

#[test]
fn capturing_royal_ends_game() {
    let mut g = GameState::new(8, 6);
    g.board.grid[5][7] = None;
    g.board.grid[2][3] = piece(PieceType::ProductOwner, PlayerColor::Black);
    assert_eq!(g.attempt_move(0, 2, 2, 3), Ok(piece(PieceType::ProductOwner, PlayerColor::Black)));
    assert!(g.game_over);
    assert_eq!(g.winner, Some(PlayerColor::White));
    assert_eq!(g.attempt_move(5, 6, 4, 6), Err(MoveError::GameOver));
    assert_eq!(g.attempt_move(2, 3, 3, 3), Err(MoveError::GameOver));
    assert_eq!(g.select_piece(2, 3), Err(SelectError::GameOver));
    g.restart(8, 6);
    assert!(!g.game_over);
    assert_eq!(g.winner, None);
    assert_eq!(g.current_player, PlayerColor::White);
    assert_eq!(g.board.get_piece(0, 2), piece(PieceType::Designer, PlayerColor::White));
}

#[test]
fn royal_captures_royal() {
    let mut g = GameState::new(8, 6);
    g.board.grid[5][7] = None;
    g.board.grid[1][1] = piece(PieceType::ProductOwner, PlayerColor::Black);
    g.select_piece(0, 0).unwrap();
    assert_eq!(g.attempt_move(0, 0, 1, 1), Ok(piece(PieceType::ProductOwner, PlayerColor::Black)));
    assert!(g.game_over);
    assert_eq!(g.winner, Some(PlayerColor::White));
    assert_eq!(g.current_player, PlayerColor::White);
}

#[test]
fn non_royal_capture_continues() {
    let mut g = GameState::new(8, 6);
    g.board.grid[2][3] = piece(PieceType::Developer, PlayerColor::Black);
    assert_eq!(g.attempt_move(0, 2, 2, 3), Ok(piece(PieceType::Developer, PlayerColor::Black)));
    assert!(!g.game_over);
    assert_eq!(g.current_player, PlayerColor::Black);
}

fn royals(b: &Board, color: PlayerColor) -> usize {
    let mut n = 0;
    for r in 0..b.height {
        for c in 0..b.width {
            if b.get_piece(r, c) == piece(PieceType::ProductOwner, color) {
                n += 1;
            }
        }
    }
    n
}

#[test]
fn royals_kept_through_play() {
    let mut g = GameState::new(8, 6);
    let plays = [((0, 0), (1, 1)), ((5, 7), (4, 6)), ((1, 1), (2, 2)), ((5, 5), (3, 4)), ((0, 2), (1, 4))];
    let mut turn = PlayerColor::White;
    for (from, to) in plays {
        assert_eq!(g.attempt_move(from.0, from.1, to.0, to.1), Ok(None));
        turn = turn.opponent();
        assert_eq!(g.current_player, turn);
        assert_eq!(royals(&g.board, PlayerColor::White), 1);
        assert_eq!(royals(&g.board, PlayerColor::Black), 1);
    }
    g.board.grid[2][3] = piece(PieceType::Developer, PlayerColor::Black);
    assert_eq!(g.attempt_move(4, 6, 3, 6), Ok(None));
    assert_eq!(g.attempt_move(1, 4, 2, 2), Err(MoveError::IllegalDestination));
    assert_eq!(g.attempt_move(2, 2, 2, 3), Ok(piece(PieceType::Developer, PlayerColor::Black)));
    assert_eq!(royals(&g.board, PlayerColor::White), 1);
    assert_eq!(royals(&g.board, PlayerColor::Black), 1);
    assert_eq!(g.current_player, PlayerColor::Black);
}
