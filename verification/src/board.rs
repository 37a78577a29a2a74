//! The board state: twelve per-piece square sets, the auxiliary fields,
//! and the square lookup.

use vstd::prelude::*;

use crate::bits::{bb_has, lemma_bit_ext};

verus! {

/// The kind of a piece, with no attached colour.
#[derive(Clone, Copy, Debug, PartialEq, Eq, Structural)]
pub enum PieceKind {
    Pawn,
    Knight,
    Bishop,
    Rook,
    Queen,
    King,
}

/// The colour that owns a piece or has the move.
#[derive(Clone, Copy, Debug, PartialEq, Eq, Structural)]
pub enum Side {
    White,
    Black,
}

/// Twelve 64-bit square sets, one per (side, kind) pair, plus the two
/// derived per-side occupancy sets.  Bit `i` of a set means that a piece
/// of that side and kind stands on square `i` (`i == rank * 8 + file`,
/// rank 0 the notation's bottom-most row, White's back rank in the
/// starting position).
#[derive(Clone, Copy, Debug, PartialEq, Eq)]
pub struct BoardBitboards {
    pub white_pawns: u64,
    pub white_knights: u64,
    pub white_bishops: u64,
    pub white_rooks: u64,
    pub white_queens: u64,
    pub white_king: u64,
    pub black_pawns: u64,
    pub black_knights: u64,
    pub black_bishops: u64,
    pub black_rooks: u64,
    pub black_queens: u64,
    pub black_king: u64,
    pub white_pieces: u64,
    pub black_pieces: u64,
}

impl BoardBitboards {
    /// The square set that holds the pieces of side `s` and kind `k`.
    pub open spec fn kind_bb(&self, s: Side, k: PieceKind) -> u64 {
        match (s, k) {
            (Side::White, PieceKind::Pawn) => self.white_pawns,
            (Side::White, PieceKind::Knight) => self.white_knights,
            (Side::White, PieceKind::Bishop) => self.white_bishops,
            (Side::White, PieceKind::Rook) => self.white_rooks,
            (Side::White, PieceKind::Queen) => self.white_queens,
            (Side::White, PieceKind::King) => self.white_king,
            (Side::Black, PieceKind::Pawn) => self.black_pawns,
            (Side::Black, PieceKind::Knight) => self.black_knights,
            (Side::Black, PieceKind::Bishop) => self.black_bishops,
            (Side::Black, PieceKind::Rook) => self.black_rooks,
            (Side::Black, PieceKind::Queen) => self.black_queens,
            (Side::Black, PieceKind::King) => self.black_king,
        }
    }

    /// The occupant of square `i`, by a fixed priority scan over the twelve
    /// sets: white pawn, knight, bishop, rook, queen, king, then the same
    /// kinds for black.
    pub open spec fn occupant(&self, i: u64) -> Option<(Side, PieceKind)> {
        if bb_has(self.white_pawns, i) {
            Some((Side::White, PieceKind::Pawn))
        } else if bb_has(self.white_knights, i) {
            Some((Side::White, PieceKind::Knight))
        } else if bb_has(self.white_bishops, i) {
            Some((Side::White, PieceKind::Bishop))
        } else if bb_has(self.white_rooks, i) {
            Some((Side::White, PieceKind::Rook))
        } else if bb_has(self.white_queens, i) {
            Some((Side::White, PieceKind::Queen))
        } else if bb_has(self.white_king, i) {
            Some((Side::White, PieceKind::King))
        } else if bb_has(self.black_pawns, i) {
            Some((Side::Black, PieceKind::Pawn))
        } else if bb_has(self.black_knights, i) {
            Some((Side::Black, PieceKind::Knight))
        } else if bb_has(self.black_bishops, i) {
            Some((Side::Black, PieceKind::Bishop))
        } else if bb_has(self.black_rooks, i) {
            Some((Side::Black, PieceKind::Rook))
        } else if bb_has(self.black_queens, i) {
            Some((Side::Black, PieceKind::Queen))
        } else if bb_has(self.black_king, i) {
            Some((Side::Black, PieceKind::King))
        } else {
            None
        }
    }

    /// The board as a sequence of 64 squares, each empty or occupied.
    pub open spec fn squares(&self) -> Seq<Option<(Side, PieceKind)>> {
        Seq::new(64, |i: int| self.occupant(i as u64))
    }

    /// Well-formed: no square is claimed by two of the twelve sets, and the
    /// two per-side occupancy sets are exactly the union of that side's six.
    pub open spec fn wf(&self) -> bool {
        &&& forall|s: Side, k: PieceKind, i: u64|
            i < 64 && #[trigger] bb_has(self.kind_bb(s, k), i) ==> self.occupant(i) == Some((s, k))
        &&& self.white_pieces == self.white_pawns | self.white_knights | self.white_bishops
            | self.white_rooks | self.white_queens | self.white_king
        &&& self.black_pieces == self.black_pawns | self.black_knights | self.black_bishops
            | self.black_rooks | self.black_queens | self.black_king
    }

    /// Puts a piece of side `side` and kind `kind` on square `pos`, leaving
    /// every other bit of every square set as it was.
    pub(crate) fn add_piece(&mut self, side: Side, kind: PieceKind, pos: u8)
        requires
            pos < 64,
        ensures
            forall|s: Side, k: PieceKind| #[trigger] final(self).kind_bb(s, k) == (if s == side
                && k == kind {
                old(self).kind_bb(s, k) | (1u64 << (pos as u64))
            } else {
                old(self).kind_bb(s, k)
            }),
            final(self).white_pieces == old(self).white_pieces,
            final(self).black_pieces == old(self).black_pieces,
    {
        let mask: u64 = 1u64 << (pos as u64);
        match (side, kind) {
            (Side::White, PieceKind::Pawn) => self.white_pawns = self.white_pawns | mask,
            (Side::White, PieceKind::Knight) => self.white_knights = self.white_knights | mask,
            (Side::White, PieceKind::Bishop) => self.white_bishops = self.white_bishops | mask,
            (Side::White, PieceKind::Rook) => self.white_rooks = self.white_rooks | mask,
            (Side::White, PieceKind::Queen) => self.white_queens = self.white_queens | mask,
            (Side::White, PieceKind::King) => self.white_king = self.white_king | mask,
            (Side::Black, PieceKind::Pawn) => self.black_pawns = self.black_pawns | mask,
            (Side::Black, PieceKind::Knight) => self.black_knights = self.black_knights | mask,
            (Side::Black, PieceKind::Bishop) => self.black_bishops = self.black_bishops | mask,
            (Side::Black, PieceKind::Rook) => self.black_rooks = self.black_rooks | mask,
            (Side::Black, PieceKind::Queen) => self.black_queens = self.black_queens | mask,
            (Side::Black, PieceKind::King) => self.black_king = self.black_king | mask,
        }
    }

    /// The occupant of square `pos`, both its side and its kind.
    pub fn get_piece(&self, pos: u8) -> (r: Option<(Side, PieceKind)>)
        requires
            pos < 64,
        ensures
            r == self.occupant(pos as u64),
    {
        let mask: u64 = 1u64 << (pos as u64);
        if self.white_pawns & mask != 0 {
            return Some((Side::White, PieceKind::Pawn));
        }
        if self.white_knights & mask != 0 {
            return Some((Side::White, PieceKind::Knight));
        }
        if self.white_bishops & mask != 0 {
            return Some((Side::White, PieceKind::Bishop));
        }
        if self.white_rooks & mask != 0 {
            return Some((Side::White, PieceKind::Rook));
        }
        if self.white_queens & mask != 0 {
            return Some((Side::White, PieceKind::Queen));
        }
        if self.white_king & mask != 0 {
            return Some((Side::White, PieceKind::King));
        }
        if self.black_pawns & mask != 0 {
            return Some((Side::Black, PieceKind::Pawn));
        }
        if self.black_knights & mask != 0 {
            return Some((Side::Black, PieceKind::Knight));
        }
        if self.black_bishops & mask != 0 {
            return Some((Side::Black, PieceKind::Bishop));
        }
        if self.black_rooks & mask != 0 {
            return Some((Side::Black, PieceKind::Rook));
        }
        if self.black_queens & mask != 0 {
            return Some((Side::Black, PieceKind::Queen));
        }
        if self.black_king & mask != 0 {
            return Some((Side::Black, PieceKind::King));
        }
        None
    }

    /// The kind of the piece on square `pos`, if any, colour discarded.
    pub fn get_square(&self, pos: u8) -> (r: Option<PieceKind>)
        requires
            pos < 64,
        ensures
            r == (match self.occupant(pos as u64) {
                Some(p) => Some(p.1),
                None => None::<PieceKind>,
            }),
    {
        match self.get_piece(pos) {
            Some(p) => Some(p.1),
            None => None,
        }
    }

    /// The side of the piece on square `pos`, if any, kind discarded.
    pub fn get_side(&self, pos: u8) -> (r: Option<Side>)
        requires
            pos < 64,
        ensures
            r == (match self.occupant(pos as u64) {
                Some(p) => Some(p.0),
                None => None::<Side>,
            }),
    {
        match self.get_piece(pos) {
            Some(p) => Some(p.0),
            None => None,
        }
    }
}

/// The abstract reading of a board state: what each square holds, whose
/// move it is, the four castling rights, and the en-passant target.
#[verifier::ext_equal]
pub struct BoardModel {
    pub squares: Seq<Option<(Side, PieceKind)>>,
    pub side_to_move: Side,
    pub white_king_castle: bool,
    pub white_queen_castle: bool,
    pub black_king_castle: bool,
    pub black_queen_castle: bool,
    pub en_passant_square: Option<u8>,
}

/// A full position: the piece square sets together with the side to move,
/// the four castling rights, and the en-passant target square, if any.
/// Built once by the notation parser and immutable afterwards.
#[derive(Clone, Copy, Debug, PartialEq, Eq)]
pub struct BoardState {
    pub bitboards: BoardBitboards,
    pub side_to_move: Side,
    pub white_king_castle: bool,
    pub white_queen_castle: bool,
    pub black_king_castle: bool,
    pub black_queen_castle: bool,
    pub en_passant_square: Option<u8>,
}

impl View for BoardState {
    type V = BoardModel;

    open spec fn view(&self) -> BoardModel {
        BoardModel {
            squares: self.bitboards.squares(),
            side_to_move: self.side_to_move,
            white_king_castle: self.white_king_castle,
            white_queen_castle: self.white_queen_castle,
            black_king_castle: self.black_king_castle,
            black_queen_castle: self.black_queen_castle,
            en_passant_square: self.en_passant_square,
        }
    }
}

/// The one-character glyph the diagnostic grid shows for a square: the
/// piece's kind letter, colour discarded, or `-` for an empty square.
pub open spec fn glyph(o: Option<(Side, PieceKind)>) -> char {
    match o {
        None => '-',
        Some(p) => match p.1 {
            PieceKind::Pawn => 'P',
            PieceKind::Knight => 'N',
            PieceKind::Bishop => 'B',
            PieceKind::Rook => 'R',
            PieceKind::Queen => 'Q',
            PieceKind::King => 'K',
        },
    }
}

/// The glyph the diagnostic grid shows at display row `row` (0 is the
/// top line, board row 7) and file `file`.
pub open spec fn grid_glyph(bb: BoardBitboards, row: int, file: int) -> char {
    glyph(bb.occupant(((7 - row) * 8 + file) as u64))
}

impl BoardState {
    /// Well-formed: the square sets are consistent.
    pub open spec fn wf(&self) -> bool {
        self.bitboards.wf()
    }

    /// The 8-by-8 diagnostic grid: ranks from the highest board row down
    /// to row 0, eight glyphs per line, each line ended by a newline.
    /// Character `idx` of the grid is `'\n'` at every ninth position and
    /// otherwise the glyph of square `(7 - idx / 9) * 8 + idx % 9`.
    pub fn render(&self) -> (r: Vec<char>)
        ensures
            r@.len() == 72,
            forall|idx: int|
                0 <= idx < 72 && idx % 9 < 8 ==> #[trigger] r@[idx] == grid_glyph(
                    self.bitboards,
                    idx / 9,
                    idx % 9,
                ),
            forall|idx: int| 0 <= idx < 72 && idx % 9 == 8 ==> #[trigger] r@[idx] == '\n',
    {
        let mut r: Vec<char> = Vec::new();
        let mut row: usize = 0;
        while row < 8
            invariant
                0 <= row <= 8,
                r@.len() == row * 9,
                forall|idx: int|
                    0 <= idx < r@.len() && idx % 9 < 8 ==> #[trigger] r@[idx] == grid_glyph(
                        self.bitboards,
                        idx / 9,
                        idx % 9,
                    ),
                forall|idx: int| 0 <= idx < r@.len() && idx % 9 == 8 ==> #[trigger] r@[idx] == '\n',
            decreases 8 - row,
        {
            let rank: usize = 7 - row;
            let mut file: usize = 0;
            while file < 8
                invariant
                    0 <= row < 8,
                    rank == 7 - row,
                    0 <= file <= 8,
                    r@.len() == row * 9 + file,
                    forall|idx: int|
                        0 <= idx < r@.len() && idx % 9 < 8 ==> #[trigger] r@[idx] == grid_glyph(
                            self.bitboards,
                            idx / 9,
                            idx % 9,
                        ),
                    forall|idx: int|
                        0 <= idx < r@.len() && idx % 9 == 8 ==> #[trigger] r@[idx] == '\n',
                decreases 8 - file,
            {
                let pos: u8 = (rank * 8 + file) as u8;
                let g = match self.bitboards.get_square(pos) {
                    Some(PieceKind::Pawn) => 'P',
                    Some(PieceKind::Knight) => 'N',
                    Some(PieceKind::Bishop) => 'B',
                    Some(PieceKind::Rook) => 'R',
                    Some(PieceKind::Queen) => 'Q',
                    Some(PieceKind::King) => 'K',
                    None => '-',
                };
                r.push(g);
                proof {
                    assert((row * 9 + file) % 9 == file as int);
                    assert((row * 9 + file) / 9 == row as int);
                    assert(r@[row * 9 + file] == grid_glyph(
                        self.bitboards,
                        row as int,
                        file as int,
                    ));
                }
                file += 1;
            }
            r.push('\n');
            proof {
                assert((row * 9 + 8) % 9 == 8);
            }
            row += 1;
        }
        r
    }
}

/// Two well-formed states with the same abstract view are equal, word for
/// word: every square set is bitwise identical and every auxiliary field
/// agrees.  Together with `from_fen`'s contract, parsing the same valid
/// string twice therefore yields bitwise-identical board states.
pub proof fn lemma_view_determines_state(a: BoardState, b: BoardState)
    requires
        a.wf(),
        b.wf(),
        a@ == b@,
    ensures
        a == b,
{
    assert forall|s: Side, k: PieceKind| #[trigger] a.bitboards.kind_bb(s, k)
        == b.bitboards.kind_bb(s, k) by {
        assert forall|i: u64| i < 64 implies bb_has(a.bitboards.kind_bb(s, k), i) == bb_has(
            b.bitboards.kind_bb(s, k),
            i,
        ) by {
            assert(a.bitboards.squares()[i as int] == a.bitboards.occupant(i));
            assert(b.bitboards.squares()[i as int] == b.bitboards.occupant(i));
            assert(a.bitboards.occupant(i) == b.bitboards.occupant(i));
            if bb_has(a.bitboards.kind_bb(s, k), i) {
                assert(a.bitboards.occupant(i) == Some((s, k)));
                assert(bb_has(b.bitboards.kind_bb(s, k), i));
            }
            if bb_has(b.bitboards.kind_bb(s, k), i) {
                assert(b.bitboards.occupant(i) == Some((s, k)));
                assert(bb_has(a.bitboards.kind_bb(s, k), i));
            }
        }
        lemma_bit_ext(a.bitboards.kind_bb(s, k), b.bitboards.kind_bb(s, k));
    }
    assert(a.bitboards.kind_bb(Side::White, PieceKind::Pawn) == b.bitboards.kind_bb(
        Side::White,
        PieceKind::Pawn,
    ));
    assert(a.bitboards.kind_bb(Side::White, PieceKind::Knight) == b.bitboards.kind_bb(
        Side::White,
        PieceKind::Knight,
    ));
    assert(a.bitboards.kind_bb(Side::White, PieceKind::Bishop) == b.bitboards.kind_bb(
        Side::White,
        PieceKind::Bishop,
    ));
    assert(a.bitboards.kind_bb(Side::White, PieceKind::Rook) == b.bitboards.kind_bb(
        Side::White,
        PieceKind::Rook,
    ));
    assert(a.bitboards.kind_bb(Side::White, PieceKind::Queen) == b.bitboards.kind_bb(
        Side::White,
        PieceKind::Queen,
    ));
    assert(a.bitboards.kind_bb(Side::White, PieceKind::King) == b.bitboards.kind_bb(
        Side::White,
        PieceKind::King,
    ));
    assert(a.bitboards.kind_bb(Side::Black, PieceKind::Pawn) == b.bitboards.kind_bb(
        Side::Black,
        PieceKind::Pawn,
    ));
    assert(a.bitboards.kind_bb(Side::Black, PieceKind::Knight) == b.bitboards.kind_bb(
        Side::Black,
        PieceKind::Knight,
    ));
    assert(a.bitboards.kind_bb(Side::Black, PieceKind::Bishop) == b.bitboards.kind_bb(
        Side::Black,
        PieceKind::Bishop,
    ));
    assert(a.bitboards.kind_bb(Side::Black, PieceKind::Rook) == b.bitboards.kind_bb(
        Side::Black,
        PieceKind::Rook,
    ));
    assert(a.bitboards.kind_bb(Side::Black, PieceKind::Queen) == b.bitboards.kind_bb(
        Side::Black,
        PieceKind::Queen,
    ));
    assert(a.bitboards.kind_bb(Side::Black, PieceKind::King) == b.bitboards.kind_bb(
        Side::Black,
        PieceKind::King,
    ));
    assert(a.bitboards == b.bitboards);
    assert(a == b);
}

/// No square is claimed twice: if the sets for `(s1, k1)` and `(s2, k2)`
/// both hold square `i` of a well-formed board, they are the same set.
pub proof fn lemma_no_double_occupancy(
    bb: BoardBitboards,
    s1: Side,
    k1: PieceKind,
    s2: Side,
    k2: PieceKind,
    i: u64,
)
    requires
        bb.wf(),
        i < 64,
        bb_has(bb.kind_bb(s1, k1), i),
        bb_has(bb.kind_bb(s2, k2), i),
    ensures
        s1 == s2 && k1 == k2,
{
    assert(bb.occupant(i) == Some((s1, k1)));
    assert(bb.occupant(i) == Some((s2, k2)));
}

} // verus!
