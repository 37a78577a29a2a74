//! Behaviour of the notation parser on whole strings.

use fenboard::board::{BoardState, PieceKind, Side};
use fenboard::fen::{ParseError, DEFAULT_FEN_STRING};

/// What the starting position holds on square `i` (`rank * 8 + file`,
/// rank 0 parsed first).
fn start_square(i: u8) -> Option<(Side, PieceKind)> {
    let row = i / 8;
    let file = i % 8;
    let kind = match (row, file) {
        (0, 0) | (0, 7) | (7, 0) | (7, 7) => PieceKind::Rook,
        (0, 1) | (0, 6) | (7, 1) | (7, 6) => PieceKind::Knight,
        (0, 2) | (0, 5) | (7, 2) | (7, 5) => PieceKind::Bishop,
        (0, 3) | (7, 3) => PieceKind::Queen,
        (0, 4) | (7, 4) => PieceKind::King,
        (1, _) | (6, _) => PieceKind::Pawn,
        _ => return None,
    };
    // The first rank substring of the default string is Black's back rank
    // and fills the highest board row, so rows 6 and 7 are Black and rows
    // 0 and 1 are White.
    let side = if row <= 1 { Side::White } else { Side::Black };
    Some((side, kind))
}

#[test]
fn parses_starting_position() {
    let bs = BoardState::from_fen(DEFAULT_FEN_STRING).unwrap();
    assert_eq!(bs.side_to_move, Side::White);
    assert!(bs.white_king_castle);
    assert!(bs.white_queen_castle);
    assert!(bs.black_king_castle);
    assert!(bs.black_queen_castle);
    assert_eq!(bs.en_passant_square, None);
    for i in 0..64u8 {
        let expected = start_square(i);
        assert_eq!(bs.bitboards.get_piece(i), expected, "square {}", i);
        assert_eq!(bs.bitboards.get_square(i), expected.map(|p| p.1));
        assert_eq!(bs.bitboards.get_side(i), expected.map(|p| p.0));
    }
    // White pawns fill exactly board row 1: bits 8..16.
    assert_eq!(bs.bitboards.white_pawns, 0x0000_0000_0000_ff00u64);
    // Black pawns fill exactly board row 6: bits 48..56.
    assert_eq!(bs.bitboards.black_pawns, 0x00ff_0000_0000_0000u64);
    // Kings stand on the e-file of their back ranks: White on row 0,
    // Black on row 7.
    assert_eq!(bs.bitboards.get_square(4), Some(PieceKind::King));
    assert_eq!(bs.bitboards.get_side(4), Some(Side::White));
    assert_eq!(bs.bitboards.get_square(60), Some(PieceKind::King));
    assert_eq!(bs.bitboards.get_side(60), Some(Side::Black));
}

#[test]
fn aggregates_are_the_union_of_the_piece_sets() {
    let bs = BoardState::from_fen(DEFAULT_FEN_STRING).unwrap();
    let b = &bs.bitboards;
    let white = b.white_pawns | b.white_knights | b.white_bishops | b.white_rooks | b.white_queens
        | b.white_king;
    let black = b.black_pawns | b.black_knights | b.black_bishops | b.black_rooks | b.black_queens
        | b.black_king;
    assert_eq!(b.white_pieces, white);
    assert_eq!(b.black_pieces, black);
    assert_eq!(white & black, 0);
}

#[test]
fn field_count_must_be_six() {
    assert_eq!(
        BoardState::from_fen("rnbqkbnr/pppppppp/8/8/8/8/PPPPPPPP/RNBQKBNR w KQkq -"),
        Err(ParseError::FieldCount)
    );
    assert_eq!(
        BoardState::from_fen("rnbqkbnr/pppppppp/8/8/8/8/PPPPPPPP/RNBQKBNR w KQkq - 0 1 extra"),
        Err(ParseError::FieldCount)
    );
    assert_eq!(BoardState::from_fen(""), Err(ParseError::FieldCount));
}

#[test]
fn side_field_accepts_only_w_and_b() {
    assert_eq!(
        BoardState::from_fen("8/8/8/8/8/8/8/8 x - - 0 1"),
        Err(ParseError::SideToMove)
    );
    let w = BoardState::from_fen("8/8/8/8/8/8/8/8 w - - 0 1").unwrap();
    assert_eq!(w.side_to_move, Side::White);
    let b = BoardState::from_fen("8/8/8/8/8/8/8/8 b - - 0 1").unwrap();
    assert_eq!(b.side_to_move, Side::Black);
}

#[test]
fn castling_field_rejects_unknown_letters() {
    assert_eq!(
        BoardState::from_fen("8/8/8/8/8/8/8/8 w Z - 0 1"),
        Err(ParseError::Castling)
    );
    let all = BoardState::from_fen("8/8/8/8/8/8/8/8 w KQkq - 0 1").unwrap();
    assert!(all.white_king_castle);
    assert!(all.white_queen_castle);
    assert!(all.black_king_castle);
    assert!(all.black_queen_castle);
    let none = BoardState::from_fen("8/8/8/8/8/8/8/8 w - - 0 1").unwrap();
    assert!(!none.white_king_castle);
    assert!(!none.white_queen_castle);
    assert!(!none.black_king_castle);
    assert!(!none.black_queen_castle);
    let some = BoardState::from_fen("8/8/8/8/8/8/8/8 w Kq - 0 1").unwrap();
    assert!(some.white_king_castle);
    assert!(!some.white_queen_castle);
    assert!(!some.black_king_castle);
    assert!(some.black_queen_castle);
    // `-` mixed with letters is tolerated as a no-op placeholder.
    let mixed = BoardState::from_fen("8/8/8/8/8/8/8/8 w K-q - 0 1").unwrap();
    assert!(mixed.white_king_castle);
    assert!(!mixed.white_queen_castle);
    assert!(!mixed.black_king_castle);
    assert!(mixed.black_queen_castle);
}

#[test]
fn en_passant_field_is_dash_or_two_digits_in_range() {
    let none = BoardState::from_fen("8/8/8/8/8/8/8/8 w - - 0 1").unwrap();
    assert_eq!(none.en_passant_square, None);
    // File 4, rank 5 name square (4 - 1) + (5 - 1) * 8 = 35.
    let some = BoardState::from_fen("8/8/8/8/8/8/8/8 w - 45 0 1").unwrap();
    assert_eq!(some.en_passant_square, Some(35));
    assert_eq!(
        BoardState::from_fen("8/8/8/8/8/8/8/8 w - 09 0 1"),
        Err(ParseError::EnPassant)
    );
    assert_eq!(
        BoardState::from_fen("8/8/8/8/8/8/8/8 w - 90 0 1"),
        Err(ParseError::EnPassant)
    );
    assert_eq!(
        BoardState::from_fen("8/8/8/8/8/8/8/8 w - e3 0 1"),
        Err(ParseError::EnPassant)
    );
    assert_eq!(
        BoardState::from_fen("8/8/8/8/8/8/8/8 w - 5 0 1"),
        Err(ParseError::EnPassant)
    );
    assert_eq!(
        BoardState::from_fen("8/8/8/8/8/8/8/8 w - 455 0 1"),
        Err(ParseError::EnPassant)
    );
}

#[test]
fn placement_must_have_eight_ranks() {
    assert_eq!(
        BoardState::from_fen("8/8/8/8/8/8/8 w - - 0 1"),
        Err(ParseError::RowCount)
    );
    assert_eq!(
        BoardState::from_fen("8/8/8/8/8/8/8/8/8 w - - 0 1"),
        Err(ParseError::RowCount)
    );
}

#[test]
fn ranks_must_cover_exactly_eight_files() {
    assert_eq!(
        BoardState::from_fen("ppppppppp/8/8/8/8/8/8/8 w - - 0 1"),
        Err(ParseError::RankOverflow)
    );
    assert_eq!(
        BoardState::from_fen("ppppppp/8/8/8/8/8/8/8 w - - 0 1"),
        Err(ParseError::RankOverflow)
    );
    assert_eq!(
        BoardState::from_fen("9/8/8/8/8/8/8/8 w - - 0 1"),
        Err(ParseError::RankOverflow)
    );
    assert_eq!(
        BoardState::from_fen("44P/8/8/8/8/8/8/8 w - - 0 1"),
        Err(ParseError::RankOverflow)
    );
}

#[test]
fn unknown_placement_characters_are_rejected() {
    assert_eq!(
        BoardState::from_fen("x7/8/8/8/8/8/8/8 w - - 0 1"),
        Err(ParseError::Piece)
    );
    assert_eq!(
        BoardState::from_fen("4x3/8/8/8/8/8/8/8 w - - 0 1"),
        Err(ParseError::Piece)
    );
    // A width failure earlier in the rank wins over a later bad letter.
    assert_eq!(
        BoardState::from_fen("44Px/8/8/8/8/8/8/8 w - - 0 1"),
        Err(ParseError::RankOverflow)
    );
}

#[test]
fn no_square_is_claimed_by_two_piece_sets() {
    let bs = BoardState::from_fen(DEFAULT_FEN_STRING).unwrap();
    let b = &bs.bitboards;
    let sets = [
        b.white_pawns,
        b.white_knights,
        b.white_bishops,
        b.white_rooks,
        b.white_queens,
        b.white_king,
        b.black_pawns,
        b.black_knights,
        b.black_bishops,
        b.black_rooks,
        b.black_queens,
        b.black_king,
    ];
    for (i, x) in sets.iter().enumerate() {
        for (j, y) in sets.iter().enumerate() {
            if i != j {
                assert_eq!(x & y, 0, "sets {} and {} overlap", i, j);
            }
        }
    }
}

#[test]
fn parses_a_mid_board_position() {
    let bs = BoardState::from_fen("8/8/8/3Pp3/8/8/8/8 b Kq 36 0 1").unwrap();
    assert_eq!(bs.side_to_move, Side::Black);
    assert!(bs.white_king_castle);
    assert!(!bs.white_queen_castle);
    assert!(!bs.black_king_castle);
    assert!(bs.black_queen_castle);
    // File 3, rank 6 name square (3 - 1) + (6 - 1) * 8 = 42.
    assert_eq!(bs.en_passant_square, Some(42));
    // The fourth rank substring fills board row 4: "3Pp3" puts a white
    // pawn on square 35 and a black pawn on square 36.
    for i in 0..64u8 {
        let expected = match i {
            35 => Some((Side::White, PieceKind::Pawn)),
            36 => Some((Side::Black, PieceKind::Pawn)),
            _ => None,
        };
        assert_eq!(bs.bitboards.get_piece(i), expected, "square {}", i);
    }
}

#[test]
fn idempotent_parsing_yields_identical_states() {
    let a = BoardState::from_fen(DEFAULT_FEN_STRING).unwrap();
    let b = BoardState::from_fen(DEFAULT_FEN_STRING).unwrap();
    assert_eq!(a.bitboards.white_pawns, b.bitboards.white_pawns);
    assert_eq!(a.bitboards.white_knights, b.bitboards.white_knights);
    assert_eq!(a.bitboards.white_bishops, b.bitboards.white_bishops);
    assert_eq!(a.bitboards.white_rooks, b.bitboards.white_rooks);
    assert_eq!(a.bitboards.white_queens, b.bitboards.white_queens);
    assert_eq!(a.bitboards.white_king, b.bitboards.white_king);
    assert_eq!(a.bitboards.black_pawns, b.bitboards.black_pawns);
    assert_eq!(a.bitboards.black_knights, b.bitboards.black_knights);
    assert_eq!(a.bitboards.black_bishops, b.bitboards.black_bishops);
    assert_eq!(a.bitboards.black_rooks, b.bitboards.black_rooks);
    assert_eq!(a.bitboards.black_queens, b.bitboards.black_queens);
    assert_eq!(a.bitboards.black_king, b.bitboards.black_king);
    assert_eq!(a.bitboards.white_pieces, b.bitboards.white_pieces);
    assert_eq!(a.bitboards.black_pieces, b.bitboards.black_pieces);
    assert_eq!(a.side_to_move, b.side_to_move);
    assert_eq!(a.white_king_castle, b.white_king_castle);
    assert_eq!(a.white_queen_castle, b.white_queen_castle);
    assert_eq!(a.black_king_castle, b.black_king_castle);
    assert_eq!(a.black_queen_castle, b.black_queen_castle);
    assert_eq!(a.en_passant_square, b.en_passant_square);
}
