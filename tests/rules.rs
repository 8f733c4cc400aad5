use chess_core::{
    Board, CastleSide, ChessError, GameStatus, Move, MoveKind, Piece, PieceKinds, PlaySide,
    Position,
};

fn pos(row: u8, col: u8) -> Position {
    Position { row, col }
}

fn mv(fr: u8, fc: u8, tr: u8, tc: u8, kind: MoveKind) -> Move {
    Move { from: pos(fr, fc), to: pos(tr, tc), kind }
}

fn board(fen: &str) -> Board {
    let mut b = Board::new();
    assert_eq!(b.load_fen(fen), Ok(()));
    b
}

#[test]
fn initial_position_has_twenty_moves() {
    let b = Board::new();
    let moves = b.legal_moves();
    assert_eq!(moves.len(), 20);
    let singles = moves.iter().filter(|m| m.kind == MoveKind::Normal && m.from.row == 6).count();
    let doubles = moves.iter().filter(|m| m.kind == MoveKind::DoublePawnStep).count();
    let knights = moves
        .iter()
        .filter(|m| m.from.row == 7 && (m.from.col == 1 || m.from.col == 6))
        .count();
    assert_eq!(singles, 8);
    assert_eq!(doubles, 8);
    assert_eq!(knights, 4);
    assert!(moves.iter().all(|m| m.to.row < 8 && m.to.col < 8));
}

#[test]
fn initial_position_layout() {
    let b = Board::new();
    assert_eq!(b.at(0, 4), Some(Piece::new(PieceKinds::KING, true)));
    assert_eq!(b.at(7, 3), Some(Piece::new(PieceKinds::QUEEN, false)));
    assert_eq!(b.at(6, 0), Some(Piece::new(PieceKinds::PAWN, false)));
    assert_eq!(b.at(4, 4), None);
    assert_eq!(b.side_to_move(), PlaySide::WHITE);
    assert_eq!(b.placement_field(), b"rnbqkbnr/pppppppp/8/8/8/8/PPPPPPPP/RNBQKBNR".to_vec());
    assert_eq!(b.game_status(), GameStatus::Ongoing);
}

#[test]
fn init_fills_home_ranks_only() {
    let mut b = board("4k3/8/8/3Q4/8/8/8/4K3 w - - 0 1");
    b.init();
    assert_eq!(b.at(3, 3), Some(Piece::new(PieceKinds::QUEEN, false)));
    assert_eq!(b.at(0, 0), Some(Piece::new(PieceKinds::ROOK, true)));
    assert_eq!(b.at(6, 7), Some(Piece::new(PieceKinds::PAWN, false)));
}

#[test]
fn placement_field_round_trips() {
    let fen = "8/5k2/3p4/1p1Pp2p/pP2Pp1P/P4P1K/8/8 b - - 99 50";
    let b = board(fen);
    assert_eq!(b.placement_field(), b"8/5k2/3p4/1p1Pp2p/pP2Pp1P/P4P1K/8/8".to_vec());
    assert_eq!(b.side_to_move(), PlaySide::BLACK);
    assert_eq!(b.halfmove_clock(), 99);
    assert_eq!(b.fullmove_number(), 50);
    assert_eq!(b.en_passant_target(), None);
    let rights = b.castling_rights();
    assert!(!rights.white_kingside && !rights.white_queenside);
    assert!(!rights.black_kingside && !rights.black_queenside);
}

#[test]
fn decoding_placement_field_directly() {
    let cells = Board::fen_piece_placement(b"8/8/8/8/8/8/8/K6k").unwrap();
    assert_eq!(cells.len(), 64);
    assert_eq!(cells[56], Some(Piece::new(PieceKinds::KING, false)));
    assert_eq!(cells[63], Some(Piece::new(PieceKinds::KING, true)));
    assert_eq!(
        Board::fen_piece_placement(b"8/8/8/8/8/8/8/9"),
        Err(ChessError::MalformedInput)
    );
    assert_eq!(
        Board::fen_piece_placement(b"8/8/8/8/8/8/8/7"),
        Err(ChessError::MalformedInput)
    );
}

#[test]
fn malformed_fen_is_rejected_and_board_kept() {
    let mut b = Board::new();
    assert_eq!(b.load_fen("8/8/8/8/8/8/8/8 w - - 0"), Err(ChessError::MalformedInput));
    assert_eq!(b.load_fen("8/8/8/8/8/8/8/8/8 w - - 0 1"), Err(ChessError::MalformedInput));
    assert_eq!(b.load_fen("4k3/8/8/8/8/8/8/4K2x w - - 0 1"), Err(ChessError::MalformedInput));
    assert_eq!(b.load_fen("4k3/8/8/8/8/8/8/4K3 x - - 0 1"), Err(ChessError::MalformedInput));
    assert_eq!(b.load_fen("4k3/8/8/8/8/8/8/4K3 w KX - 0 1"), Err(ChessError::MalformedInput));
    assert_eq!(b.load_fen("4k3/8/8/8/8/8/8/4K3 w - z9 0 1"), Err(ChessError::MalformedInput));
    assert_eq!(b.load_fen("4k3/8/8/8/8/8/8/4K3 w - - x 1"), Err(ChessError::MalformedInput));
    assert_eq!(
        b.load_fen("4k3/8/8/8/8/8/8/4K3 w - - 0 99999999999"),
        Err(ChessError::MalformedInput)
    );
    // two white kings
    assert_eq!(b.load_fen("4k3/8/8/8/8/8/8/3KK3 w - - 0 1"), Err(ChessError::MalformedInput));
    // no black king
    assert_eq!(b.load_fen("8/8/8/8/8/8/8/4K3 w - - 0 1"), Err(ChessError::MalformedInput));
    assert_eq!(b.legal_moves().len(), 20);
}

#[test]
fn fen_fields_are_read() {
    let b = board("r3k2r/8/8/3pP3/8/8/8/R3K2R w Kq d6 12 34");
    let rights = b.castling_rights();
    assert!(rights.white_kingside && !rights.white_queenside);
    assert!(!rights.black_kingside && rights.black_queenside);
    assert_eq!(b.en_passant_target(), Some(pos(2, 3)));
    assert_eq!(b.halfmove_clock(), 12);
    assert_eq!(b.fullmove_number(), 34);
}

#[test]
fn rook_on_open_file_is_not_checkmate() {
    // Black king e8, White rook e1, White king a1, White to move.
    let b = board("4k3/8/8/8/8/8/8/K3R3 w - - 0 1");
    assert!(!b.is_in_check(false));
    assert!(b.is_in_check(true));
    assert!(b.is_square_attacked(0, 4, false));
    assert_eq!(b.game_status(), GameStatus::Ongoing);
}

#[test]
fn cornered_king_is_checkmate() {
    // Black king h8, White queen g7 supported by the White king on f6.
    let b = board("7k/6Q1/5K2/8/8/8/8/8 b - - 0 1");
    assert!(b.is_in_check(true));
    assert_eq!(b.legal_moves().len(), 0);
    assert_eq!(b.game_status(), GameStatus::Checkmate);
}

#[test]
fn boxed_king_is_stalemate() {
    let b = board("k7/2K5/1Q6/8/8/8/8/8 b - - 0 1");
    assert!(!b.is_in_check(true));
    assert_eq!(b.legal_moves().len(), 0);
    assert_eq!(b.game_status(), GameStatus::Stalemate);
}

#[test]
fn check_with_escape_is_check() {
    let b = board("4k3/8/8/8/8/8/8/K3R3 b - - 0 1");
    assert_eq!(b.game_status(), GameStatus::Check);
    // every answer must get the king off the file
    for m in b.legal_moves() {
        let next = b.apply(m).unwrap();
        assert!(!next.is_in_check(true));
    }
}

#[test]
fn en_passant_target_lasts_one_ply() {
    let b = Board::new();
    let e4 = mv(6, 4, 4, 4, MoveKind::DoublePawnStep);
    let b1 = b.apply(e4).unwrap();
    assert_eq!(b1.en_passant_target(), Some(pos(5, 4)));
    assert_eq!(b1.side_to_move(), PlaySide::BLACK);
    assert_eq!(b1.halfmove_clock(), 0);
    assert_eq!(b1.fullmove_number(), 1);
    let nc6 = mv(0, 1, 2, 2, MoveKind::Normal);
    let b2 = b1.apply(nc6).unwrap();
    assert_eq!(b2.en_passant_target(), None);
    assert_eq!(b2.fullmove_number(), 2);
    assert_eq!(b2.halfmove_clock(), 1);
}

#[test]
fn en_passant_capture_removes_adjacent_pawn() {
    // White pawn e5; Black plays d7-d5; White takes on d6.
    let b = board("4k3/3p4/8/4P3/8/8/8/4K3 b - - 0 1");
    let b1 = b.apply(mv(1, 3, 3, 3, MoveKind::DoublePawnStep)).unwrap();
    assert_eq!(b1.en_passant_target(), Some(pos(2, 3)));
    let ep = mv(3, 4, 2, 3, MoveKind::EnPassantCapture);
    assert!(b1.legal_moves().contains(&ep));
    let b2 = b1.apply(ep).unwrap();
    assert_eq!(b2.at(3, 3), None);
    assert_eq!(b2.at(3, 4), None);
    assert_eq!(b2.at(2, 3).map(|p| p.kind), Some(PieceKinds::PAWN));
    assert_eq!(b2.placement_field(), b"4k3/8/3P4/8/8/8/8/4K3".to_vec());
    // not taken at once: the chance is gone
    let b3 = b1.apply(mv(7, 4, 7, 3, MoveKind::Normal)).unwrap();
    let b4 = b3.apply(mv(0, 4, 0, 3, MoveKind::Normal)).unwrap();
    assert_eq!(b4.en_passant_target(), None);
    assert!(!b4.legal_moves().iter().any(|m| m.kind == MoveKind::EnPassantCapture));
}

#[test]
fn castling_through_attacked_square_is_rejected() {
    // The black rook on f8 attacks f1; g1 itself is safe.
    let b = board("4kr2/8/8/8/8/8/8/R3K2R w KQ - 0 1");
    assert!(b.is_square_attacked(7, 5, true));
    assert!(!b.is_square_attacked(7, 6, true));
    let moves = b.legal_moves();
    assert!(!moves.contains(&mv(7, 4, 7, 6, MoveKind::Castle(CastleSide::KINGSIDE))));
    assert!(moves.contains(&mv(7, 4, 7, 2, MoveKind::Castle(CastleSide::QUEENSIDE))));
}

#[test]
fn castling_moves_rook_and_clears_rights() {
    let b = board("r3k2r/8/8/8/8/8/8/R3K2R w KQkq - 3 1");
    let castle = mv(7, 4, 7, 6, MoveKind::Castle(CastleSide::KINGSIDE));
    assert!(b.legal_moves().contains(&castle));
    let b1 = b.apply(castle).unwrap();
    assert_eq!(b1.at(7, 6).map(|p| p.kind), Some(PieceKinds::KING));
    assert_eq!(b1.at(7, 5).map(|p| p.kind), Some(PieceKinds::ROOK));
    assert_eq!(b1.at(7, 7), None);
    assert_eq!(b1.halfmove_clock(), 4);
    let r = b1.castling_rights();
    assert!(!r.white_kingside && !r.white_queenside);
    assert!(r.black_kingside && r.black_queenside);
    // a rook captured in its corner loses the right
    let b2 = board("r3k2r/8/8/8/8/8/8/R3K2R b KQkq - 0 1");
    let b3 = b2.apply(mv(0, 0, 7, 0, MoveKind::Capture)).unwrap();
    assert!(!b3.castling_rights().white_queenside);
    assert!(!b3.castling_rights().black_queenside);
    assert!(b3.castling_rights().white_kingside);
    assert_eq!(b3.halfmove_clock(), 0);
}

#[test]
fn castling_blocked_by_piece_is_rejected() {
    let b = Board::new();
    assert!(!b.legal_moves().iter().any(|m| matches!(m.kind, MoveKind::Castle(_))));
}

#[test]
fn promotion_offers_four_pieces() {
    let b = board("4k3/P7/8/8/8/8/8/4K3 w - - 0 1");
    let promos: Vec<Move> =
        b.legal_moves().into_iter().filter(|m| m.from == pos(1, 0)).collect();
    assert_eq!(promos.len(), 4);
    for k in [PieceKinds::QUEEN, PieceKinds::ROOK, PieceKinds::BISHOP, PieceKinds::KNIGHT] {
        assert!(promos.contains(&mv(1, 0, 0, 0, MoveKind::Promotion(k))));
    }
    let b1 = b.apply(mv(1, 0, 0, 0, MoveKind::Promotion(PieceKinds::KNIGHT))).unwrap();
    assert_eq!(b1.at(0, 0).map(|p| p.kind), Some(PieceKinds::KNIGHT));
    assert_eq!(b1.at(1, 0), None);
    assert_eq!(b.apply(mv(1, 0, 0, 0, MoveKind::Normal)).err(), Some(ChessError::IllegalMove));
}

#[test]
fn pinned_piece_cannot_leave_the_line() {
    // The white bishop on e2 is pinned by the rook on e8.
    let b = board("4r1k1/8/8/8/8/8/4B3/4K3 w - - 0 1");
    let from_e2 = Piece::new(PieceKinds::BISHOP, false).legal_moves(&b, pos(6, 4)).unwrap();
    assert!(from_e2.is_empty());
    let king = Piece::new(PieceKinds::KING, false).legal_moves(&b, pos(7, 4)).unwrap();
    assert!(!king.is_empty());
    assert!(king.iter().all(|m| m.from == pos(7, 4)));
}

#[test]
fn piece_moves_reject_off_board_square() {
    let b = Board::new();
    let knight = Piece::new(PieceKinds::KNIGHT, false);
    assert_eq!(knight.legal_moves(&b, pos(8, 0)), Err(ChessError::InvalidSquare));
    assert_eq!(knight.legal_moves(&b, pos(0, 9)), Err(ChessError::InvalidSquare));
    assert_eq!(knight.legal_moves(&b, pos(7, 1)).unwrap().len(), 2);
    // a piece that does not stand on the square has no moves from it
    assert!(knight.legal_moves(&b, pos(7, 0)).unwrap().is_empty());
}

#[test]
fn illegal_move_is_refused() {
    let b = Board::new();
    assert_eq!(b.apply(mv(6, 4, 3, 4, MoveKind::Normal)).err(), Some(ChessError::IllegalMove));
    assert_eq!(b.apply(mv(0, 4, 1, 4, MoveKind::Normal)).err(), Some(ChessError::IllegalMove));
    assert_eq!(b.apply(mv(9, 4, 1, 4, MoveKind::Normal)).err(), Some(ChessError::IllegalMove));
    assert!(b.is_pseudo_legal(mv(6, 4, 5, 4, MoveKind::Normal)));
    assert!(b.is_legal(mv(6, 4, 5, 4, MoveKind::Normal)));
}

#[test]
fn every_legal_move_keeps_own_king_safe() {
    let b = board("r1bqkbnr/pppp1ppp/2n5/4p3/2B1P3/5Q2/PPPP1PPP/RNB1K1NR w KQkq - 2 3");
    let moves = b.legal_moves();
    assert!(!moves.is_empty());
    for m in moves {
        let next = b.apply(m).unwrap();
        assert!(!next.is_in_check(false));
        assert!(m.to.row < 8 && m.to.col < 8);
    }
    // Qxf7 is mate
    let mate = b.apply(mv(5, 5, 1, 5, MoveKind::Capture)).unwrap();
    assert_eq!(mate.game_status(), GameStatus::Checkmate);
}

#[test]
fn fen_record_round_trips() {
    for fen in [
        "8/5k2/3p4/1p1Pp2p/pP2Pp1P/P4P1K/8/8 b - - 99 50",
        "rnbqkbnr/pppppppp/8/8/8/8/PPPPPPPP/RNBQKBNR w KQkq - 0 1",
        "r3k2r/8/8/3pP3/8/8/8/R3K2R w Kq d6 12 34",
        "4k3/8/8/8/8/8/8/4K3 b kq - 4294967295 1234567890",
    ] {
        let b = board(fen);
        assert_eq!(String::from_utf8(b.to_fen()).unwrap(), fen);
    }
}

#[test]
fn fen_record_after_moves() {
    let b = Board::new();
    let b1 = b.apply(mv(6, 4, 4, 4, MoveKind::DoublePawnStep)).unwrap();
    assert_eq!(
        String::from_utf8(b1.to_fen()).unwrap(),
        "rnbqkbnr/pppppppp/8/8/4P3/8/PPPP1PPP/RNBQKBNR b KQkq e3 0 1"
    );
    let b2 = b1.apply(mv(0, 6, 2, 5, MoveKind::Normal)).unwrap();
    assert_eq!(
        String::from_utf8(b2.to_fen()).unwrap(),
        "rnbqkb1r/pppppppp/5n2/8/4P3/8/PPPP1PPP/RNBQKBNR w KQkq - 1 2"
    );
    let mut again = Board::new();
    assert_eq!(again.load_fen(&String::from_utf8(b2.to_fen()).unwrap()), Ok(()));
    assert_eq!(again.placement_field(), b2.placement_field());
    assert_eq!(again.legal_moves(), b2.legal_moves());
}

#[test]
fn king_moves_clear_both_rights() {
    let b = board("r3k2r/8/8/8/8/8/8/R3K2R w KQkq - 0 1");
    let b1 = b.apply(mv(7, 4, 6, 4, MoveKind::Normal)).unwrap();
    let r = b1.castling_rights();
    assert!(!r.white_kingside && !r.white_queenside);
    assert!(r.black_kingside && r.black_queenside);
    assert_eq!(b1.halfmove_clock(), 1);
    assert_eq!(b1.at(6, 4).map(|p| p.has_moved_before), Some(true));
}

#[test]
fn validate_reports_inconsistent_positions() {
    assert_eq!(Board::new().validate(), Ok(()));
    let mut b = Board::empty();
    assert_eq!(b.validate(), Err(ChessError::ConsistencyError));
    b.init();
    assert_eq!(b.validate(), Ok(()));
    b.state[0] = Some(Piece::new(PieceKinds::PAWN, true));
    assert_eq!(b.validate(), Err(ChessError::ConsistencyError));
    b.state[0] = Some(Piece::new(PieceKinds::KING, false));
    assert_eq!(b.validate(), Err(ChessError::ConsistencyError));
}
