//! Behaviour of the square lookup and the diagnostic grid.

use fenboard::board::{BoardBitboards, BoardState, PieceKind};
use fenboard::fen::DEFAULT_FEN_STRING;

#[test]
fn renders_the_starting_position() {
    let bs = BoardState::from_fen(DEFAULT_FEN_STRING).unwrap();
    let grid: String = bs.render().into_iter().collect();
    assert_eq!(
        grid,
        "RNBQKBNR\nPPPPPPPP\n--------\n--------\n--------\n--------\nPPPPPPPP\nRNBQKBNR\n"
    );
}

#[test]
fn renders_the_highest_row_first() {
    // The first rank substring fills board row 7, which the grid prints
    // first, so the diagram reads as the notation names it.
    let bs = BoardState::from_fen("K7/8/8/8/8/8/8/7Q w - - 0 1").unwrap();
    let grid: String = bs.render().into_iter().collect();
    assert_eq!(
        grid,
        "K-------\n--------\n--------\n--------\n--------\n--------\n--------\n-------Q\n"
    );
}

#[test]
fn renders_an_empty_board() {
    let bs = BoardState::from_fen("8/8/8/8/8/8/8/8 w - - 0 1").unwrap();
    let grid: String = bs.render().into_iter().collect();
    assert_eq!(grid.len(), 72);
    assert!(grid.chars().all(|c| c == '-' || c == '\n'));
}

#[test]
fn lookup_scans_white_sets_before_black_sets() {
    let bb = BoardBitboards {
        white_pawns: 1,
        white_knights: 0,
        white_bishops: 0,
        white_rooks: 0,
        white_queens: 0,
        white_king: 0,
        black_pawns: 0,
        black_knights: 0,
        black_bishops: 0,
        black_rooks: 0,
        black_queens: 0,
        black_king: 1,
        white_pieces: 0,
        black_pieces: 0,
    };
    assert_eq!(bb.get_square(0), Some(PieceKind::Pawn));
    let empty = BoardBitboards { white_pawns: 0, black_king: 0, ..bb };
    assert_eq!(empty.get_square(0), None);
}
