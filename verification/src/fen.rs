//! The six-field positional notation: its mathematical reading and the
//! verified parsers for the auxiliary fields.
//!
//! The notation is six space-separated fields: piece placement (eight
//! `/`-separated ranks of digits and piece letters, the highest board row
//! named first), side to move (`w` or `b`), castling rights (a string
//! over `K`, `Q`, `k`, `q`, `-`), the en-passant target (`-`, or a file
//! digit and a rank digit, each `1` through `8`), and the two move
//! counters, which are required to be present but are not retained.

use vstd::prelude::*;
use vstd::string::StrSliceExecFns;

use crate::bits::{bb_has, lemma_empty_bits, lemma_set_bit};
use crate::board::{BoardBitboards, BoardModel, BoardState, PieceKind, Side};

verus! {

/// The distinct ways a notation string can be rejected.
#[derive(Clone, Copy, Debug, PartialEq, Eq, Structural)]
pub enum ParseError {
    /// The string does not split into exactly six space-separated fields.
    FieldCount,
    /// The side-to-move field is neither `w` nor `b`.
    SideToMove,
    /// The castling field holds a character other than `K`, `Q`, `k`, `q`, `-`.
    Castling,
    /// The en-passant field is not `-` and is not a two-digit square in range.
    EnPassant,
    /// The placement field does not split into exactly eight ranks.
    RowCount,
    /// A rank holds a character that is neither a digit nor a piece letter.
    Piece,
    /// A rank's digits and piece letters do not account for exactly eight files.
    RankOverflow,
}

/// Splits `s` at every occurrence of `sep`, the separators themselves
/// dropped; the result always holds at least one (possibly empty) part.
pub open spec fn split_on(s: Seq<char>, sep: char) -> Seq<Seq<char>>
    decreases s.len(),
{
    if s.len() == 0 {
        seq![Seq::<char>::empty()]
    } else if s[0] == sep {
        seq![Seq::<char>::empty()] + split_on(s.drop_first(), sep)
    } else {
        let rest = split_on(s.drop_first(), sep);
        seq![seq![s[0]] + rest[0]] + rest.drop_first()
    }
}

pub proof fn lemma_split_on_nonempty(s: Seq<char>, sep: char)
    ensures
        split_on(s, sep).len() >= 1,
    decreases s.len(),
{
    if s.len() != 0 && s[0] != sep {
        lemma_split_on_nonempty(s.drop_first(), sep);
    }
}

/// The characters of `s`, in order, as a vector.
pub fn chars_of(s: &str) -> (r: Vec<char>)
    ensures
        r@ == s@,
{
    let n = s.unicode_len();
    let mut r: Vec<char> = Vec::new();
    let mut i: usize = 0;
    while i < n
        invariant
            n == s@.len(),
            0 <= i <= n,
            r@ == s@.subrange(0, i as int),
        decreases n - i,
    {
        let c = s.get_char(i);
        r.push(c);
        proof {
            assert(r@ =~= s@.subrange(0, (i + 1) as int));
        }
        i += 1;
    }
    proof {
        assert(r@ =~= s@);
    }
    r
}

/// Splits `s` at every occurrence of `sep`, as `split_on` reads it.
pub fn split_chars(s: &Vec<char>, sep: char) -> (r: Vec<Vec<char>>)
    ensures
        r.len() == split_on(s@, sep).len(),
        forall|j: int| 0 <= j < r.len() ==> r@[j]@ == split_on(s@, sep)[j],
{
    let mut done: Vec<Vec<char>> = Vec::new();
    let ghost mut gdone: Seq<Seq<char>> = Seq::empty();
    let mut cur: Vec<char> = Vec::new();
    let mut i: usize = 0;
    proof {
        lemma_split_on_nonempty(s@, sep);
        assert(s@.skip(0) =~= s@);
        let x = split_on(s@, sep);
        assert(Seq::<Seq<char>>::empty() + seq![cur@ + x[0]] + x.drop_first() =~~= x);
    }
    while i < s.len()
        invariant
            0 <= i <= s.len(),
            done.len() == gdone.len(),
            forall|j: int| 0 <= j < done.len() ==> done@[j]@ == gdone[j],
            ({
                let x = split_on(s@.skip(i as int), sep);
                split_on(s@, sep) == gdone + seq![cur@ + x[0]] + x.drop_first()
            }),
        decreases s.len() - i,
    {
        let ghost x = split_on(s@.skip(i as int), sep);
        let ghost xn = split_on(s@.skip(i + 1), sep);
        proof {
            lemma_split_on_nonempty(s@.skip(i + 1), sep);
            assert(s@.skip(i as int).drop_first() =~= s@.skip(i + 1));
            assert(s@.skip(i as int)[0] == s@[i as int]);
        }
        let c = s[i];
        if c == sep {
            proof {
                assert(x == seq![Seq::<char>::empty()] + xn);
                assert(x[0] =~= Seq::<char>::empty());
                assert(x.drop_first() =~= xn);
                assert(xn =~~= seq![xn[0]] + xn.drop_first());
                assert(gdone + seq![cur@ + x[0]] + x.drop_first() =~~= gdone.push(cur@) + seq![
                    Seq::<char>::empty() + xn[0],
                ] + xn.drop_first());
            }
            done.push(cur);
            proof {
                gdone = gdone.push(cur@);
            }
            cur = Vec::new();
        } else {
            proof {
                assert(x == seq![seq![s@[i as int]] + xn[0]] + xn.drop_first());
                assert(x.drop_first() =~= xn.drop_first());
                assert(cur@ + x[0] =~= cur@.push(c) + xn[0]);
                assert(gdone + seq![cur@ + x[0]] + x.drop_first() =~~= gdone + seq![
                    cur@.push(c) + xn[0],
                ] + xn.drop_first());
            }
            cur.push(c);
        }
        i += 1;
    }
    proof {
        let x = split_on(s@.skip(i as int), sep);
        assert(s@.skip(i as int) =~= Seq::<char>::empty());
        assert(x == seq![Seq::<char>::empty()]);
        assert(gdone + seq![cur@ + x[0]] + x.drop_first() =~~= gdone.push(cur@));
    }
    done.push(cur);
    done
}

/// A decimal digit character.
pub open spec fn is_digit(c: char) -> bool {
    ('0' as u32) <= (c as u32) && (c as u32) <= ('9' as u32)
}

/// The numeric value of a decimal digit character.
pub open spec fn digit_val(c: char) -> int {
    c as u32 - '0' as u32
}

/// The piece a placement letter stands for: uppercase letters are White,
/// lowercase Black.
pub open spec fn piece_of_char(c: char) -> Option<(Side, PieceKind)> {
    if c == 'P' {
        Some((Side::White, PieceKind::Pawn))
    } else if c == 'N' {
        Some((Side::White, PieceKind::Knight))
    } else if c == 'B' {
        Some((Side::White, PieceKind::Bishop))
    } else if c == 'R' {
        Some((Side::White, PieceKind::Rook))
    } else if c == 'Q' {
        Some((Side::White, PieceKind::Queen))
    } else if c == 'K' {
        Some((Side::White, PieceKind::King))
    } else if c == 'p' {
        Some((Side::Black, PieceKind::Pawn))
    } else if c == 'n' {
        Some((Side::Black, PieceKind::Knight))
    } else if c == 'b' {
        Some((Side::Black, PieceKind::Bishop))
    } else if c == 'r' {
        Some((Side::Black, PieceKind::Rook))
    } else if c == 'q' {
        Some((Side::Black, PieceKind::Queen))
    } else if c == 'k' {
        Some((Side::Black, PieceKind::King))
    } else {
        None
    }
}

/// Reading of the side-to-move field: exactly `w` or exactly `b`.
pub open spec fn spec_parse_side(f: Seq<char>) -> Result<Side, ParseError> {
    if f.len() == 1 && f[0] == 'w' {
        Ok(Side::White)
    } else if f.len() == 1 && f[0] == 'b' {
        Ok(Side::Black)
    } else {
        Err(ParseError::SideToMove)
    }
}

/// True when `f` holds the character `c` somewhere.
pub open spec fn has_char(f: Seq<char>, c: char) -> bool {
    exists|j: int| 0 <= j < f.len() && f[j] == c
}

/// A character the castling field accepts; `-` is a no-op placeholder.
pub open spec fn castling_char_ok(c: char) -> bool {
    c == 'K' || c == 'Q' || c == 'k' || c == 'q' || c == '-'
}

/// Reading of the castling field: every character must be recognized, and
/// each letter grants the matching right, in the order white kingside,
/// white queenside, black kingside, black queenside.
pub open spec fn spec_parse_castling(f: Seq<char>) -> Result<(bool, bool, bool, bool), ParseError> {
    if forall|j: int| 0 <= j < f.len() ==> castling_char_ok(#[trigger] f[j]) {
        Ok((has_char(f, 'K'), has_char(f, 'Q'), has_char(f, 'k'), has_char(f, 'q')))
    } else {
        Err(ParseError::Castling)
    }
}

/// Reading of the en-passant field: `-` means no target; otherwise a file
/// digit and a rank digit, each between 1 and 8, naming the square
/// `(file - 1) + (rank - 1) * 8`.
pub open spec fn spec_parse_ep(f: Seq<char>) -> Result<Option<u8>, ParseError> {
    if f.len() == 1 && f[0] == '-' {
        Ok(None)
    } else if f.len() == 2 && is_digit(f[0]) && is_digit(f[1]) && 1 <= digit_val(f[0]) <= 8 && 1
        <= digit_val(f[1]) <= 8 {
        Ok(Some(((digit_val(f[0]) - 1) + (digit_val(f[1]) - 1) * 8) as u8))
    } else {
        Err(ParseError::EnPassant)
    }
}

/// A run of `n` empty squares.
pub open spec fn empty_run(n: int) -> Seq<Option<(Side, PieceKind)>> {
    Seq::new(n as nat, |j: int| None::<(Side, PieceKind)>)
}

/// Walks a rank from file cursor `col`: a digit advances the cursor by its
/// value, a piece letter fills one square, anything else is rejected, and
/// the rank must account for exactly eight files.
pub open spec fn spec_walk_rank(row: Seq<char>, col: int) -> Result<
    Seq<Option<(Side, PieceKind)>>,
    ParseError,
>
    decreases row.len(),
{
    if row.len() == 0 {
        if col == 8 {
            Ok(Seq::<Option<(Side, PieceKind)>>::empty())
        } else {
            Err(ParseError::RankOverflow)
        }
    } else if is_digit(row[0]) {
        if col + digit_val(row[0]) > 8 {
            Err(ParseError::RankOverflow)
        } else {
            match spec_walk_rank(row.drop_first(), col + digit_val(row[0])) {
                Ok(rest) => Ok(empty_run(digit_val(row[0])) + rest),
                Err(e) => Err(e),
            }
        }
    } else {
        match piece_of_char(row[0]) {
            Some(p) => if col >= 8 {
                Err(ParseError::RankOverflow)
            } else {
                match spec_walk_rank(row.drop_first(), col + 1) {
                    Ok(rest) => Ok(seq![Some(p)] + rest),
                    Err(e) => Err(e),
                }
            },
            None => Err(ParseError::Piece),
        }
    }
}

/// Reads the given ranks in order.  The notation names the top board row
/// first, so substring `r` of eight fills squares `(7 - r) * 8` through
/// `(7 - r) * 8 + 7`: the later a substring comes, the lower in the
/// square sequence its rank lands.  The first failing substring, in the
/// order named, decides the error.
pub open spec fn spec_parse_rows(rows: Seq<Seq<char>>) -> Result<
    Seq<Option<(Side, PieceKind)>>,
    ParseError,
>
    decreases rows.len(),
{
    if rows.len() == 0 {
        Ok(Seq::<Option<(Side, PieceKind)>>::empty())
    } else {
        match spec_walk_rank(rows[0], 0) {
            Ok(head) => match spec_parse_rows(rows.drop_first()) {
                Ok(rest) => Ok(rest + head),
                Err(e) => Err(e),
            },
            Err(e) => Err(e),
        }
    }
}

/// Reading of the placement field: exactly eight `/`-separated ranks,
/// each read by `spec_walk_rank`, the first named rank standing on the
/// highest board row.
pub open spec fn spec_parse_placement(f: Seq<char>) -> Result<
    Seq<Option<(Side, PieceKind)>>,
    ParseError,
>
{
    let rows = split_on(f, '/');
    if rows.len() != 8 {
        Err(ParseError::RowCount)
    } else {
        spec_parse_rows(rows)
    }
}

/// Reads the side-to-move field.
pub fn parse_side_field(f: &Vec<char>) -> (r: Result<Side, ParseError>)
    ensures
        r == spec_parse_side(f@),
{
    if f.len() == 1 {
        let c = f[0];
        if c == 'w' {
            return Ok(Side::White);
        }
        if c == 'b' {
            return Ok(Side::Black);
        }
    }
    Err(ParseError::SideToMove)
}

/// Reads the castling field into the four rights, in the order white
/// kingside, white queenside, black kingside, black queenside.
pub fn parse_castling_field(f: &Vec<char>) -> (r: Result<(bool, bool, bool, bool), ParseError>)
    ensures
        r == spec_parse_castling(f@),
{
    let mut wk = false;
    let mut wq = false;
    let mut bk = false;
    let mut bq = false;
    let mut i: usize = 0;
    while i < f.len()
        invariant
            0 <= i <= f.len(),
            forall|j: int| 0 <= j < i ==> castling_char_ok(#[trigger] f@[j]),
            wk == exists|j: int| 0 <= j < i && f@[j] == 'K',
            wq == exists|j: int| 0 <= j < i && f@[j] == 'Q',
            bk == exists|j: int| 0 <= j < i && f@[j] == 'k',
            bq == exists|j: int| 0 <= j < i && f@[j] == 'q',
        decreases f.len() - i,
    {
        let c = f[i];
        if c == 'K' {
            wk = true;
        } else if c == 'Q' {
            wq = true;
        } else if c == 'k' {
            bk = true;
        } else if c == 'q' {
            bq = true;
        } else if c != '-' {
            proof {
                assert(!castling_char_ok(f@[i as int]));
            }
            return Err(ParseError::Castling);
        }
        proof {
            assert(castling_char_ok(f@[i as int]));
        }
        i += 1;
    }
    Ok((wk, wq, bk, bq))
}

/// Reads the en-passant field.
pub fn parse_ep_field(f: &Vec<char>) -> (r: Result<Option<u8>, ParseError>)
    ensures
        r == spec_parse_ep(f@),
{
    if f.len() == 1 && f[0] == '-' {
        return Ok(None);
    }
    if f.len() == 2 {
        let v0 = f[0] as u32;
        let v1 = f[1] as u32;
        if 49 <= v0 && v0 <= 56 && 49 <= v1 && v1 <= 56 {
            let file = (v0 - 48) as u8;
            let rank = (v1 - 48) as u8;
            return Ok(Some((file - 1) + (rank - 1) * 8));
        }
    }
    Err(ParseError::EnPassant)
}

/// The piece a placement letter stands for, if any.
fn piece_char(c: char) -> (r: Option<(Side, PieceKind)>)
    ensures
        r == piece_of_char(c),
{
    if c == 'P' {
        Some((Side::White, PieceKind::Pawn))
    } else if c == 'N' {
        Some((Side::White, PieceKind::Knight))
    } else if c == 'B' {
        Some((Side::White, PieceKind::Bishop))
    } else if c == 'R' {
        Some((Side::White, PieceKind::Rook))
    } else if c == 'Q' {
        Some((Side::White, PieceKind::Queen))
    } else if c == 'K' {
        Some((Side::White, PieceKind::King))
    } else if c == 'p' {
        Some((Side::Black, PieceKind::Pawn))
    } else if c == 'n' {
        Some((Side::Black, PieceKind::Knight))
    } else if c == 'b' {
        Some((Side::Black, PieceKind::Bishop))
    } else if c == 'r' {
        Some((Side::Black, PieceKind::Rook))
    } else if c == 'q' {
        Some((Side::Black, PieceKind::Queen))
    } else if c == 'k' {
        Some((Side::Black, PieceKind::King))
    } else {
        None
    }
}

/// If rank `rk` fails to read, the whole tail of ranks from `rk` on fails
/// with the same error.
proof fn lemma_parse_rows_err(rows: Seq<Seq<char>>, rk: int)
    requires
        0 <= rk < rows.len(),
        spec_walk_rank(rows[rk], 0) is Err,
    ensures
        spec_parse_rows(rows.skip(rk)) is Err,
        spec_parse_rows(rows.skip(rk))->Err_0 == spec_walk_rank(rows[rk], 0)->Err_0,
{
    assert(rows.skip(rk)[0] == rows[rk]);
}

/// Reads the placement field into the twelve square sets and derives the
/// two per-side occupancy sets from them.  The first rank substring fills
/// board row 7, the last board row 0.
pub fn parse_placement_field(f: &Vec<char>) -> (r: Result<BoardBitboards, ParseError>)
    ensures
        (match r {
            Ok(bb) => spec_parse_placement(f@) is Ok && bb.squares() == spec_parse_placement(
                f@,
            )->Ok_0 && bb.wf(),
            Err(e) => spec_parse_placement(f@) is Err && spec_parse_placement(f@)->Err_0 == e,
        }),
{
    let rows = split_chars(f, '/');
    let ghost rows_v = split_on(f@, '/');
    if rows.len() != 8 {
        return Err(ParseError::RowCount);
    }
    let mut bb = BoardBitboards {
        white_pawns: 0,
        white_knights: 0,
        white_bishops: 0,
        white_rooks: 0,
        white_queens: 0,
        white_king: 0,
        black_pawns: 0,
        black_knights: 0,
        black_bishops: 0,
        black_rooks: 0,
        black_queens: 0,
        black_king: 0,
        white_pieces: 0,
        black_pieces: 0,
    };
    // The ranks read so far, highest board row last: after `rk` ranks the
    // squares `64 - rk * 8` through `63` hold `upper` and all others are
    // still empty.
    let ghost mut upper: Seq<Option<(Side, PieceKind)>> = Seq::empty();
    proof {
        lemma_empty_bits();
        assert(rows_v.skip(0) =~= rows_v);
    }
    let mut rk: usize = 0;
    while rk < 8
        invariant
            rows.len() == 8,
            rows_v == split_on(f@, '/'),
            rows_v.len() == 8,
            forall|j: int| 0 <= j < 8 ==> rows@[j]@ == rows_v[j],
            0 <= rk <= 8,
            upper.len() == rk * 8,
            bb.white_pieces == 0,
            bb.black_pieces == 0,
            forall|s: Side, k: PieceKind, i: u64|
                i < 64 ==> (#[trigger] bb_has(bb.kind_bb(s, k), i) <==> 64 - upper.len()
                    <= i as int && upper[i as int - (64 - upper.len())] == Some((s, k))),
            (match spec_parse_rows(rows_v.skip(rk as int)) {
                Ok(rest) => spec_parse_rows(rows_v) is Ok && spec_parse_rows(rows_v)->Ok_0 == rest
                    + upper,
                Err(e) => spec_parse_rows(rows_v) is Err && spec_parse_rows(rows_v)->Err_0 == e,
            }),
        decreases 8 - rk,
    {
        let ghost row_v = rows_v[rk as int];
        let ghost mut placed: Seq<Option<(Side, PieceKind)>> = Seq::empty();
        let mut col: u8 = 0;
        let mut j: usize = 0;
        proof {
            assert(row_v.skip(0) =~= row_v);
            assert(spec_walk_rank(row_v, 0) is Ok ==> placed + spec_walk_rank(row_v, 0)->Ok_0
                =~= spec_walk_rank(row_v, 0)->Ok_0);
        }
        while j < rows[rk].len()
            invariant
                rows.len() == 8,
                rows_v == split_on(f@, '/'),
                rows_v.len() == 8,
                forall|jj: int| 0 <= jj < 8 ==> rows@[jj]@ == rows_v[jj],
                0 <= rk < 8,
                row_v == rows_v[rk as int],
                0 <= j <= row_v.len(),
                0 <= col <= 8,
                upper.len() == rk * 8,
                placed.len() == col,
                bb.white_pieces == 0,
                bb.black_pieces == 0,
                forall|s: Side, k: PieceKind, i: u64|
                    i < 64 ==> (#[trigger] bb_has(bb.kind_bb(s, k), i) <==> ((64 - upper.len()
                        <= i as int && upper[i as int - (64 - upper.len())] == Some((s, k))) || ((7
                        - rk as int) * 8 <= i as int && (i as int) < (7 - rk as int) * 8 + col
                        && placed[i as int - (7 - rk as int) * 8] == Some((s, k))))),
                (match spec_walk_rank(row_v.skip(j as int), col as int) {
                    Ok(rest) => spec_walk_rank(row_v, 0) is Ok && spec_walk_rank(row_v, 0)->Ok_0
                        == placed + rest,
                    Err(e) => spec_walk_rank(row_v, 0) is Err && spec_walk_rank(row_v, 0)->Err_0
                        == e,
                }),
                (match spec_parse_rows(rows_v.skip(rk as int)) {
                    Ok(rest) => spec_parse_rows(rows_v) is Ok && spec_parse_rows(rows_v)->Ok_0
                        == rest + upper,
                    Err(e) => spec_parse_rows(rows_v) is Err && spec_parse_rows(rows_v)->Err_0
                        == e,
                }),
            decreases row_v.len() - j,
        {
            proof {
                assert(row_v.skip(j as int)[0] == row_v[j as int]);
                assert(row_v.skip(j as int).drop_first() =~= row_v.skip(j as int + 1));
            }
            let c = rows[rk][j];
            let v = c as u32;
            if 48 <= v && v <= 57 {
                let n = (v - 48) as u8;
                if col + n > 8 {
                    proof {
                        assert(spec_walk_rank(row_v.skip(j as int), col as int) is Err);
                        lemma_parse_rows_err(rows_v, rk as int);
                        assert(spec_parse_placement(f@) is Err && spec_parse_placement(f@)->Err_0
                            == ParseError::RankOverflow);
                    }
                    return Err(ParseError::RankOverflow);
                }
                col = col + n;
                proof {
                    placed = placed + empty_run(n as int);
                    assert(spec_walk_rank(row_v, 0) is Ok ==> placed + spec_walk_rank(
                        row_v.skip(j as int + 1),
                        col as int,
                    )->Ok_0 =~= spec_walk_rank(row_v, 0)->Ok_0);
                }
            } else {
                match piece_char(c) {
                    Some(p) => {
                        if col >= 8 {
                            proof {
                                assert(spec_walk_rank(row_v.skip(j as int), col as int) is Err);
                                lemma_parse_rows_err(rows_v, rk as int);
                                assert(spec_parse_placement(f@) is Err && spec_parse_placement(
                                    f@,
                                )->Err_0 == ParseError::RankOverflow);
                            }
                            return Err(ParseError::RankOverflow);
                        }
                        let pos: u8 = ((7 - rk) * 8) as u8 + col;
                        let ghost bb0 = bb;
                        let ghost placed0 = placed;
                        bb.add_piece(p.0, p.1, pos);
                        col = col + 1;
                        proof {
                            placed = placed.push(Some(p));
                            assert(pos as int == (7 - rk as int) * 8 + placed0.len());
                            assert((pos as int) < 64 - upper.len());
                            assert forall|s: Side, k: PieceKind, i: u64| i < 64 implies (
                            #[trigger] bb_has(bb.kind_bb(s, k), i) <==> ((64 - upper.len()
                                <= i as int && upper[i as int - (64 - upper.len())] == Some(
                                (s, k),
                            )) || ((7 - rk as int) * 8 <= i as int && (i as int) < (7 - rk as int) * 8 + col
                                && placed[i as int - (7 - rk as int) * 8] == Some((s, k))))) by {
                                if s == p.0 && k == p.1 {
                                    lemma_set_bit(bb0.kind_bb(s, k), pos as u64, i);
                                    assert(bb.kind_bb(s, k) == bb0.kind_bb(s, k) | (1u64 << (
                                    pos as u64)));
                                    assert(bb_has(bb.kind_bb(s, k), i) == (bb_has(
                                        bb0.kind_bb(s, k),
                                        i,
                                    ) || i == pos as u64));
                                } else {
                                    assert(bb.kind_bb(s, k) == bb0.kind_bb(s, k));
                                }
                                assert(bb_has(bb0.kind_bb(s, k), i) <==> ((64 - upper.len()
                                    <= i as int && upper[i as int - (64 - upper.len())] == Some(
                                    (s, k),
                                )) || ((7 - rk as int) * 8 <= i as int && (i as int) < (7 - rk as int) * 8
                                    + placed0.len() && placed0[i as int - (7 - rk as int) * 8]
                                    == Some((s, k)))));
                                assert(p == (p.0, p.1));
                            }
                            assert(spec_walk_rank(row_v, 0) is Ok ==> placed + spec_walk_rank(
                                row_v.skip(j as int + 1),
                                col as int,
                            )->Ok_0 =~= spec_walk_rank(row_v, 0)->Ok_0);
                        }
                    },
                    None => {
                        proof {
                            assert(spec_walk_rank(row_v.skip(j as int), col as int) is Err);
                            lemma_parse_rows_err(rows_v, rk as int);
                            assert(spec_parse_placement(f@) is Err && spec_parse_placement(
                                f@,
                            )->Err_0 == ParseError::Piece);
                        }
                        return Err(ParseError::Piece);
                    },
                }
            }
            j += 1;
        }
        proof {
            assert(row_v.skip(row_v.len() as int) =~= Seq::<char>::empty());
        }
        if col != 8 {
            proof {
                assert(spec_walk_rank(row_v.skip(j as int), col as int) is Err);
                lemma_parse_rows_err(rows_v, rk as int);
                assert(spec_parse_placement(f@) is Err && spec_parse_placement(f@)->Err_0
                    == ParseError::RankOverflow);
            }
            return Err(ParseError::RankOverflow);
        }
        proof {
            let upper0 = upper;
            assert(placed + Seq::<Option<(Side, PieceKind)>>::empty() =~= placed);
            assert(spec_walk_rank(row_v, 0) is Ok && spec_walk_rank(row_v, 0)->Ok_0 == placed);
            assert(rows_v.skip(rk as int)[0] == rows_v[rk as int]);
            assert(rows_v.skip(rk as int).drop_first() =~= rows_v.skip(rk as int + 1));
            assert(spec_parse_rows(rows_v.skip(rk as int + 1)) is Ok ==> (spec_parse_rows(
                rows_v.skip(rk as int + 1),
            )->Ok_0 + placed) + upper0 =~= spec_parse_rows(rows_v.skip(rk as int + 1))->Ok_0 + (
            placed + upper0));
            upper = placed + upper;
            assert forall|s: Side, k: PieceKind, i: u64| i < 64 implies (#[trigger] bb_has(
                bb.kind_bb(s, k),
                i,
            ) <==> 64 - upper.len() <= i as int && upper[i as int - (64 - upper.len())] == Some(
                (s, k),
            )) by {
                assert(bb_has(bb.kind_bb(s, k), i) <==> ((64 - upper0.len() <= i as int && upper0[
                    i as int - (64 - upper0.len())
                ] == Some((s, k))) || ((7 - rk as int) * 8 <= i as int && (i as int) < (7 - rk as int) * 8 + col
                    && placed[i as int - (7 - rk as int) * 8] == Some((s, k)))));
            }
        }
        rk += 1;
    }
    proof {
        assert(rows_v.skip(8) =~= Seq::<Seq<char>>::empty());
        assert(Seq::<Option<(Side, PieceKind)>>::empty() + upper =~= upper);
        assert(spec_parse_rows(rows_v) is Ok && spec_parse_rows(rows_v)->Ok_0 == upper);
        assert(upper.len() == 64);
    }
    let ghost bbp = bb;
    bb.white_pieces = bb.white_pawns | bb.white_knights | bb.white_bishops | bb.white_rooks
        | bb.white_queens | bb.white_king;
    bb.black_pieces = bb.black_pawns | bb.black_knights | bb.black_bishops | bb.black_rooks
        | bb.black_queens | bb.black_king;
    proof {
        assert forall|s: Side, k: PieceKind, i: u64| i < 64 implies (#[trigger] bb_has(
            bb.kind_bb(s, k),
            i,
        ) <==> upper[i as int] == Some((s, k))) by {
            assert(bb.kind_bb(s, k) == bbp.kind_bb(s, k));
            assert(bb_has(bbp.kind_bb(s, k), i) <==> 64 - upper.len() <= i as int && upper[i as int
                - (64 - upper.len())] == Some((s, k)));
        }
        assert forall|i: u64| i < 64 implies #[trigger] bb.occupant(i) == upper[i as int] by {
            assert(bb_has(bb.kind_bb(Side::White, PieceKind::Pawn), i) <==> upper[i as int]
                == Some((Side::White, PieceKind::Pawn)));
            assert(bb_has(bb.kind_bb(Side::White, PieceKind::Knight), i) <==> upper[i as int]
                == Some((Side::White, PieceKind::Knight)));
            assert(bb_has(bb.kind_bb(Side::White, PieceKind::Bishop), i) <==> upper[i as int]
                == Some((Side::White, PieceKind::Bishop)));
            assert(bb_has(bb.kind_bb(Side::White, PieceKind::Rook), i) <==> upper[i as int]
                == Some((Side::White, PieceKind::Rook)));
            assert(bb_has(bb.kind_bb(Side::White, PieceKind::Queen), i) <==> upper[i as int]
                == Some((Side::White, PieceKind::Queen)));
            assert(bb_has(bb.kind_bb(Side::White, PieceKind::King), i) <==> upper[i as int]
                == Some((Side::White, PieceKind::King)));
            assert(bb_has(bb.kind_bb(Side::Black, PieceKind::Pawn), i) <==> upper[i as int]
                == Some((Side::Black, PieceKind::Pawn)));
            assert(bb_has(bb.kind_bb(Side::Black, PieceKind::Knight), i) <==> upper[i as int]
                == Some((Side::Black, PieceKind::Knight)));
            assert(bb_has(bb.kind_bb(Side::Black, PieceKind::Bishop), i) <==> upper[i as int]
                == Some((Side::Black, PieceKind::Bishop)));
            assert(bb_has(bb.kind_bb(Side::Black, PieceKind::Rook), i) <==> upper[i as int]
                == Some((Side::Black, PieceKind::Rook)));
            assert(bb_has(bb.kind_bb(Side::Black, PieceKind::Queen), i) <==> upper[i as int]
                == Some((Side::Black, PieceKind::Queen)));
            assert(bb_has(bb.kind_bb(Side::Black, PieceKind::King), i) <==> upper[i as int]
                == Some((Side::Black, PieceKind::King)));
            match upper[i as int] {
                None => {},
                Some(q) => {
                    match (q.0, q.1) {
                        (Side::White, PieceKind::Pawn) => {},
                        (Side::White, PieceKind::Knight) => {},
                        (Side::White, PieceKind::Bishop) => {},
                        (Side::White, PieceKind::Rook) => {},
                        (Side::White, PieceKind::Queen) => {},
                        (Side::White, PieceKind::King) => {},
                        (Side::Black, PieceKind::Pawn) => {},
                        (Side::Black, PieceKind::Knight) => {},
                        (Side::Black, PieceKind::Bishop) => {},
                        (Side::Black, PieceKind::Rook) => {},
                        (Side::Black, PieceKind::Queen) => {},
                        (Side::Black, PieceKind::King) => {},
                    }
                },
            }
        }
        assert forall|s: Side, k: PieceKind, i: u64|
            i < 64 && #[trigger] bb_has(bb.kind_bb(s, k), i) implies bb.occupant(i) == Some(
            (s, k),
        ) by {
            assert(upper[i as int] == Some((s, k)));
        }
        assert(bb.squares() =~= upper);
    }
    Ok(bb)
}

/// Reading of a whole notation string: six fields, the side, castling and
/// en-passant fields validated first, then the placement field; the move
/// counter fields are only required to be present.
pub open spec fn spec_parse_fen(s: Seq<char>) -> Result<BoardModel, ParseError> {
    let fields = split_on(s, ' ');
    if fields.len() != 6 {
        Err(ParseError::FieldCount)
    } else {
        match spec_parse_side(fields[1]) {
            Err(e) => Err(e),
            Ok(side) => match spec_parse_castling(fields[2]) {
                Err(e) => Err(e),
                Ok(castling) => match spec_parse_ep(fields[3]) {
                    Err(e) => Err(e),
                    Ok(ep) => match spec_parse_placement(fields[0]) {
                        Err(e) => Err(e),
                        Ok(squares) => Ok(
                            (BoardModel {
                                squares,
                                side_to_move: side,
                                white_king_castle: castling.0,
                                white_queen_castle: castling.1,
                                black_king_castle: castling.2,
                                black_queen_castle: castling.3,
                                en_passant_square: ep,
                            }),
                        ),
                    },
                },
            },
        }
    }
}

/// The canonical starting position, used as the default input.
pub const DEFAULT_FEN_STRING: &'static str =
    "rnbqkbnr/pppppppp/8/8/8/8/PPPPPPPP/RNBQKBNR w KQkq - 0 1";

impl BoardState {
    /// Builds a position from a six-field notation string, exactly as
    /// `spec_parse_fen` reads it: the result is `Ok` if and only if the
    /// string is well-formed, the returned state's view is the string's
    /// reading, and a rejected string yields the reading's error.
    pub fn from_fen(fen: &str) -> (r: Result<BoardState, ParseError>)
        ensures
            r is Ok <==> spec_parse_fen(fen@) is Ok,
            r is Ok ==> (r->Ok_0)@ == spec_parse_fen(fen@)->Ok_0 && (r->Ok_0).wf(),
            r is Err ==> r->Err_0 == spec_parse_fen(fen@)->Err_0,
    {
        let chars = chars_of(fen);
        let fields = split_chars(&chars, ' ');
        let ghost fields_v = split_on(fen@, ' ');
        if fields.len() != 6 {
            return Err(ParseError::FieldCount);
        }
        proof {
            assert(fields@[0]@ == fields_v[0]);
            assert(fields@[1]@ == fields_v[1]);
            assert(fields@[2]@ == fields_v[2]);
            assert(fields@[3]@ == fields_v[3]);
        }
        let side_to_move = match parse_side_field(&fields[1]) {
            Ok(s) => s,
            Err(e) => return Err(e),
        };
        let castling = match parse_castling_field(&fields[2]) {
            Ok(c) => c,
            Err(e) => return Err(e),
        };
        let en_passant_square = match parse_ep_field(&fields[3]) {
            Ok(o) => o,
            Err(e) => return Err(e),
        };
        let bitboards = match parse_placement_field(&fields[0]) {
            Ok(b) => b,
            Err(e) => return Err(e),
        };
        let state = BoardState {
            bitboards,
            side_to_move,
            white_king_castle: castling.0,
            white_queen_castle: castling.1,
            black_king_castle: castling.2,
            black_queen_castle: castling.3,
            en_passant_square,
        };
        proof {
            assert(state@ =~~= spec_parse_fen(fen@)->Ok_0);
        }
        Ok(state)
    }
}

} // verus!
