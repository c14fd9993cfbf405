use chess_engine::{
    evaluate_status, legal_move, path_clear, square_under_attack, ChessBoard, ChessPathway,
    ChessPiece, ChessPos, ChessState,
};

#[test]
fn test_initial_position_layout() {
    let b = ChessBoard::init_position();
    assert_eq!(b.get_piece(0), ChessPiece::WRook);
    assert_eq!(b.get_piece(1), ChessPiece::WKnight);
    assert_eq!(b.get_piece(2), ChessPiece::WBishop);
    assert_eq!(b.get_piece(3), ChessPiece::WQueen);
    assert_eq!(b.get_piece(4), ChessPiece::WKing);
    assert_eq!(b.get_piece(12), ChessPiece::WPawn);
    assert_eq!(b.get_piece(35), ChessPiece::Empty);
    assert_eq!(b.get_piece(52), ChessPiece::BPawn);
    assert_eq!(b.get_piece(59), ChessPiece::BQueen);
    assert_eq!(b.get_piece(60), ChessPiece::BKing);
    assert_eq!(b.get_piece(63), ChessPiece::BRook);
    assert!(b.white_turn());
    assert_eq!(b.get_state(), ChessState::On);
    let cells = b.get_board();
    assert_eq!(cells.len(), 64);
    assert_eq!(cells[7], ChessPiece::WRook);
    assert_eq!(cells[56], ChessPiece::BRook);
}

#[test]
fn test_double_step_from_start() {
    // e2 -> e4, the standard initial pawn double step
    let mut b = ChessBoard::init_position();
    b.drag(12, 28);
    assert_eq!(b.get_piece(12), ChessPiece::Empty);
    assert_eq!(b.get_piece(28), ChessPiece::WPawn);
    assert!(!b.white_turn());
    assert_eq!(b.get_state(), ChessState::On);
}

#[test]
fn test_illegal_knight_move_rejected() {
    // b1 -> b3 is not an L-shape: board and turn stay unchanged
    let mut b = ChessBoard::init_position();
    let before = b.get_board();
    b.drag(1, 17);
    assert_eq!(b.get_board(), before);
    assert!(b.white_turn());
    assert_eq!(b.get_state(), ChessState::On);
}

#[test]
fn test_move_from_empty_square_rejected() {
    let mut b = ChessBoard::init_position();
    let before = b.get_board();
    b.drag(35, 36);
    assert_eq!(b.get_board(), before);
    assert!(b.white_turn());
}

#[test]
fn test_wrong_color_rejected() {
    // black may not move first
    let mut b = ChessBoard::init_position();
    let before = b.get_board();
    b.drag(52, 36);
    assert_eq!(b.get_board(), before);
    assert!(b.white_turn());
}

#[test]
fn test_enclosed_rook_has_no_moves() {
    // the a1 rook in the starting position is boxed in by its own
    // knight and pawn: no destination passes the pathway checker
    let b = ChessBoard::init_position();
    let cells = b.get_board();
    for t in 0..64u8 {
        assert!(!legal_move(&cells, true, 0, t));
        if t != 0 {
            assert!(!path_clear(&cells, 0, t, true, ChessPathway::Straight));
            assert!(!path_clear(&cells, 0, t, false, ChessPathway::Straight));
        }
    }
}

#[test]
fn test_legal_move_samples() {
    let b = ChessBoard::init_position();
    let cells = b.get_board();
    assert!(legal_move(&cells, true, 12, 20)); // e2 -> e3
    assert!(legal_move(&cells, true, 12, 28)); // e2 -> e4
    assert!(legal_move(&cells, true, 1, 18)); // b1 -> c3
    assert!(legal_move(&cells, true, 6, 21)); // g1 -> f3
    assert!(!legal_move(&cells, true, 12, 36)); // e2 -> e5: too far
    assert!(!legal_move(&cells, true, 3, 35)); // queen blocked by own pawn
    assert!(!legal_move(&cells, true, 4, 12)); // king onto own pawn
    assert!(!legal_move(&cells, true, 12, 12)); // from == to
    assert!(legal_move(&cells, false, 52, 36)); // e7 -> e5 for black
    assert!(!legal_move(&cells, true, 52, 36)); // black pawn on white's turn
}

#[test]
fn test_pathway_checker_samples() {
    let b = ChessBoard::init_position();
    let cells = b.get_board();
    // d1 -> d8 is a clear straight shape request but the path is blocked
    assert!(!path_clear(&cells, 3, 59, true, ChessPathway::Straight));
    // g1 -> f3 is a knight leap onto an empty square
    assert!(path_clear(&cells, 6, 21, true, ChessPathway::Gamma));
    // a knight leap request with a rook geometry is refused
    assert!(!path_clear(&cells, 0, 16, true, ChessPathway::Gamma));
    // a diagonal request on a straight pair is refused
    assert!(!path_clear(&cells, 3, 59, true, ChessPathway::Diagonal));
    // e3 -> c5 is a clear diagonal over empty squares
    assert!(path_clear(&cells, 20, 34, false, ChessPathway::Diagonal));
}

#[test]
fn test_fools_mate_checkmate() {
    let mut b = ChessBoard::init_position();
    b.drag(13, 21); // f2 -> f3
    assert_eq!(b.get_state(), ChessState::On);
    b.drag(52, 36); // e7 -> e5
    assert_eq!(b.get_state(), ChessState::On);
    b.drag(14, 30); // g2 -> g4
    assert_eq!(b.get_state(), ChessState::On);
    b.drag(59, 31); // d8 -> h4: mate
    assert_eq!(b.get_state(), ChessState::Checkmate);
    // the game is over: every further request is ignored
    let frozen = b.get_board();
    let turn = b.white_turn();
    b.drag(8, 16);
    assert_eq!(b.get_board(), frozen);
    assert_eq!(b.get_state(), ChessState::Checkmate);
    assert_eq!(b.white_turn(), turn);
}

#[test]
fn test_constructed_stalemate() {
    // black: a lone king on a8; white: queen c6, king b4.
    // Qc6 -> c7 covers a7, b7 and b8 without giving check: stalemate.
    let mut cells = vec![ChessPiece::Empty; 64];
    cells[56] = ChessPiece::BKing; // a8
    cells[42] = ChessPiece::WQueen; // c6
    cells[25] = ChessPiece::WKing; // b4
    let mut b = ChessBoard::from_position(cells, true, 25, 56).unwrap();
    assert_eq!(b.get_state(), ChessState::On);
    b.drag(42, 50); // c6 -> c7
    assert_eq!(b.get_piece(50), ChessPiece::WQueen);
    assert_eq!(b.get_state(), ChessState::Stalemate);
    // no further move is accepted
    let frozen = b.get_board();
    b.drag(56, 57);
    assert_eq!(b.get_board(), frozen);
    assert_eq!(b.get_state(), ChessState::Stalemate);
}

#[test]
fn test_between_symmetry_and_endpoints() {
    // d3 (19) and g6 (46) share a diagonal
    let a = ChessPos::from(19, false);
    let b = ChessPos::from(46, false);
    for p in 0..64u8 {
        let pp = ChessPos::from(p, false);
        assert_eq!(pp.between(a, b, true), pp.between(b, a, true));
    }
    assert!(!a.between(a, b, true));
    assert!(!b.between(a, b, true));
    assert!(ChessPos::from(28, false).between(a, b, true)); // e4 lies between
    // d3 (19) and g8 (62) share no rank, file or diagonal
    let c = ChessPos::from(62, false);
    for p in 0..64u8 {
        assert!(!ChessPos::from(p, false).between(a, c, true));
    }
}

#[test]
fn test_square_roundtrip() {
    for s in 0..64u8 {
        let p = ChessPos::from(s, false);
        assert_eq!(ChessPos::conv(p.x, p.y), s);
        assert_eq!(p.raw(), s);
    }
}

#[test]
fn test_threat_detector_samples() {
    let b = ChessBoard::init_position();
    let cells = b.get_board();
    // f3 (21) is guarded by the white g2 pawn (14), found on the
    // down-right diagonal ray
    assert_eq!(square_under_attack(&cells, 21, true), Some(14));
    // e4 (28) is attacked by nobody in the starting position
    assert_eq!(square_under_attack(&cells, 28, true), None);
    assert_eq!(square_under_attack(&cells, 28, false), None);
    // c6 (42) is guarded by the black b7 pawn (49)
    assert_eq!(square_under_attack(&cells, 42, false), Some(49));
    // e2 (12) is defended by its own side; the rays east and west are
    // blocked by pawns, so the first find in scan order is the e1 king
    // (4) one step south
    assert_eq!(square_under_attack(&cells, 12, true), Some(4));
}

#[test]
fn test_evaluate_status_samples() {
    let b = ChessBoard::init_position();
    let cells = b.get_board();
    // start position: nobody is in check and both sides can move
    assert_eq!(evaluate_status(&cells, true, 4), ChessState::On);
    assert_eq!(evaluate_status(&cells, false, 60), ChessState::On);
    // a rook gives check but a friendly rook can capture it
    let mut caps = vec![ChessPiece::Empty; 64];
    caps[4] = ChessPiece::WKing; // e1
    caps[36] = ChessPiece::BRook; // e5, checking along the file
    caps[39] = ChessPiece::WRook; // h5, able to take the attacker
    caps[60] = ChessPiece::BKing; // e8
    assert_eq!(evaluate_status(&caps, true, 4), ChessState::On);
    // a knight's check can be neither captured nor blocked here
    let mut kn = vec![ChessPiece::Empty; 64];
    kn[4] = ChessPiece::WKing; // e1
    kn[21] = ChessPiece::BKnight; // f3, giving check
    kn[60] = ChessPiece::BKing; // e8
    assert_eq!(evaluate_status(&kn, true, 4), ChessState::Checkmate);
    // the same check with a white queen on f2: the knight is capturable
    kn[13] = ChessPiece::WQueen;
    assert_eq!(evaluate_status(&kn, true, 4), ChessState::On);
}

#[test]
fn test_interposition_keeps_game_on() {
    // black rook h1 checks the white king on a1 along the first rank;
    // the white rook on b8 can drop to b1 and block.
    let mut cells = vec![ChessPiece::Empty; 64];
    cells[0] = ChessPiece::WKing; // a1
    cells[7] = ChessPiece::BRook; // h1
    cells[57] = ChessPiece::WRook; // b8
    cells[63] = ChessPiece::BKing; // h8
    assert_eq!(evaluate_status(&cells, true, 0), ChessState::On);
    // without the blocking rook the check is final: the king's escape
    // squares are not examined by the check branch
    cells[57] = ChessPiece::Empty;
    assert_eq!(evaluate_status(&cells, true, 0), ChessState::Checkmate);
}

#[test]
fn test_capture_updates_board() {
    // 1. e4 d5  2. exd5: the white pawn takes the black pawn
    let mut b = ChessBoard::init_position();
    b.drag(12, 28); // e2 -> e4
    b.drag(51, 35); // d7 -> d5
    assert_eq!(b.get_piece(35), ChessPiece::BPawn);
    b.drag(28, 35); // e4 x d5
    assert_eq!(b.get_piece(28), ChessPiece::Empty);
    assert_eq!(b.get_piece(35), ChessPiece::WPawn);
    assert!(!b.white_turn());
    assert_eq!(b.get_state(), ChessState::On);
}

#[test]
fn test_promotion_substitutes_queen() {
    // a white pawn on a7 stepping to a8 becomes the default queen
    let mut cells = vec![ChessPiece::Empty; 64];
    cells[48] = ChessPiece::WPawn; // a7
    cells[4] = ChessPiece::WKing; // e1
    cells[39] = ChessPiece::BKing; // h5
    let mut b = ChessBoard::from_position(cells, true, 4, 39).unwrap();
    assert!(b.promotion_check(48, 56));
    assert!(!b.promotion_check(48, 40));
    assert!(!b.promotion_check(4, 56));
    b.drag(48, 56);
    assert_eq!(b.get_piece(48), ChessPiece::Empty);
    assert_eq!(b.get_piece(56), ChessPiece::WQueen);
    assert!(!b.white_turn());
}

#[test]
fn test_black_promotion_substitutes_queen() {
    // a black pawn on h2 stepping to h1 becomes a black queen
    let mut cells = vec![ChessPiece::Empty; 64];
    cells[15] = ChessPiece::BPawn; // h2
    cells[4] = ChessPiece::WKing; // e1
    cells[60] = ChessPiece::BKing; // e8
    let mut b = ChessBoard::from_position(cells, false, 4, 60).unwrap();
    assert!(b.promotion_check(15, 7));
    b.drag(15, 7);
    assert_eq!(b.get_piece(15), ChessPiece::Empty);
    assert_eq!(b.get_piece(7), ChessPiece::BQueen);
}

#[test]
fn test_pawn_rules() {
    let b = ChessBoard::init_position();
    let cells = b.get_board();
    // a pawn may not step diagonally onto an empty square
    assert!(!legal_move(&cells, true, 12, 21));
    // a blocked file kills both the single and the double step
    let mut blocked = cells.clone();
    blocked[20] = ChessPiece::BRook; // e3
    assert!(!legal_move(&blocked, true, 12, 28));
    assert!(!legal_move(&blocked, true, 12, 20));
    // but an enemy on the forward diagonal may be captured
    let mut capt = cells.clone();
    capt[21] = ChessPiece::BKnight; // f3
    assert!(legal_move(&capt, true, 12, 21));
}

#[test]
fn test_pawn_double_step_only_from_start_rank() {
    // after e2 -> e3 the pawn may no longer double-step
    let mut b = ChessBoard::init_position();
    b.drag(12, 20); // e2 -> e3
    b.drag(52, 44); // e7 -> e6
    let cells = b.get_board();
    assert!(legal_move(&cells, true, 20, 28)); // e3 -> e4
    assert!(!legal_move(&cells, true, 20, 36)); // e3 -> e5
}

#[test]
fn test_rook_moves_after_clearing() {
    // 1. a4 a6 frees the a1 rook up to a3
    let mut b = ChessBoard::init_position();
    b.drag(8, 24); // a2 -> a4
    b.drag(48, 40); // a7 -> a6
    let cells = b.get_board();
    assert!(legal_move(&cells, true, 0, 8)); // a1 -> a2
    assert!(legal_move(&cells, true, 0, 16)); // a1 -> a3
    assert!(!legal_move(&cells, true, 0, 24)); // a1 -> a4: own pawn
    assert!(!legal_move(&cells, true, 0, 32)); // a1 -> a5: blocked
    assert!(!legal_move(&cells, true, 0, 9)); // a1 -> b2: no line
}

#[test]
fn test_queen_moves_after_clearing() {
    // 1. e4 e5 opens the d1 queen's diagonal toward h5
    let mut b = ChessBoard::init_position();
    b.drag(12, 28); // e2 -> e4
    b.drag(52, 36); // e7 -> e5
    let cells = b.get_board();
    assert!(legal_move(&cells, true, 3, 21)); // d1 -> f3
    assert!(legal_move(&cells, true, 3, 39)); // d1 -> h5
    assert!(!legal_move(&cells, true, 3, 11)); // d1 -> d2: own pawn
    assert!(!legal_move(&cells, true, 3, 20)); // d1 -> e3: no line
}

#[test]
fn test_from_position_validates_setup() {
    // a short board is refused
    assert!(ChessBoard::from_position(vec![ChessPiece::Empty; 10], true, 0, 1).is_none());
    // king squares must hold the right kings
    let mut cells = vec![ChessPiece::Empty; 64];
    cells[0] = ChessPiece::WKing;
    cells[63] = ChessPiece::BKing;
    assert!(ChessBoard::from_position(cells.clone(), true, 0, 63).is_some());
    assert!(ChessBoard::from_position(cells.clone(), true, 63, 0).is_none());
    assert!(ChessBoard::from_position(cells.clone(), true, 64, 63).is_none());
    assert!(ChessBoard::from_position(cells, true, 0, 1).is_none());
}
