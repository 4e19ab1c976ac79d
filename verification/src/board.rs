//! The board snapshot, the packed move record, and coordinate notation.

use vstd::prelude::*;
use vstd::string::StrSliceExecFns;
use vstd::string::StringExecFns;
use crate::bits::bit;

verus! {

/// A board snapshot: twelve piece bitboards (six piece kinds for each
/// color), three aggregate occupancies (white, black, both), the side to
/// move (0 white, 1 black, 2 undetermined), the en-passant target square
/// (64 meaning none), and the four castling-rights bits.
#[derive(Clone, Copy, Debug, PartialEq)]
pub struct BoardPosition {
    pub bitboards: [u64; 12],
    pub occupancies: [u64; 3],
    pub side: usize,
    pub enpassant: usize,
    pub castle: usize,
}

/// The twelve piece kinds: white pawn through king, then black pawn
/// through king, in the order that indexes `bitboards`.
#[allow(non_camel_case_types)]
#[derive(Debug, PartialEq, Eq, Copy, Clone, Structural)]
pub enum Piece {
    P,
    N,
    B,
    R,
    Q,
    K,
    p,
    n,
    b,
    r,
    q,
    k,
}

/// The bitboard index of a piece kind.
pub open spec fn piece_index(pc: Piece) -> usize {
    match pc {
        Piece::P => 0,
        Piece::N => 1,
        Piece::B => 2,
        Piece::R => 3,
        Piece::Q => 4,
        Piece::K => 5,
        Piece::p => 6,
        Piece::n => 7,
        Piece::b => 8,
        Piece::r => 9,
        Piece::q => 10,
        Piece::k => 11,
    }
}

impl Piece {
    pub fn to_usize(&self) -> (r: usize)
        ensures
            r == piece_index(*self),
            r < 12,
    {
        match self {
            Piece::P => 0,
            Piece::N => 1,
            Piece::B => 2,
            Piece::R => 3,
            Piece::Q => 4,
            Piece::K => 5,
            Piece::p => 6,
            Piece::n => 7,
            Piece::b => 8,
            Piece::r => 9,
            Piece::q => 10,
            Piece::k => 11,
        }
    }
}

/// The piece kind that owns a bitboard index: the inverse of `to_usize`.
pub fn piece_from_index(idx: usize) -> (pc: Piece)
    requires
        idx < 12,
    ensures
        piece_index(pc) == idx,
{
    if idx == 0 {
        Piece::P
    } else if idx == 1 {
        Piece::N
    } else if idx == 2 {
        Piece::B
    } else if idx == 3 {
        Piece::R
    } else if idx == 4 {
        Piece::Q
    } else if idx == 5 {
        Piece::K
    } else if idx == 6 {
        Piece::p
    } else if idx == 7 {
        Piece::n
    } else if idx == 8 {
        Piece::b
    } else if idx == 9 {
        Piece::r
    } else if idx == 10 {
        Piece::q
    } else {
        Piece::k
    }
}

/// The sides: white, black, and the undetermined placeholder.
#[derive(Debug, PartialEq, Eq, Copy, Clone, Structural)]
pub enum Side {
    white,
    black,
    both,
}

/// The four castling rights, in the order of their mask bits 1, 2, 4, 8.
#[allow(non_camel_case_types)]
#[derive(Debug, PartialEq, Eq, Copy, Clone, Structural)]
pub enum Castle {
    wk,
    wq,
    bk,
    bq,
}

impl Castle {
    /// The bit this right occupies in a castling-rights mask.
    pub fn mask(&self) -> (r: usize)
        ensures
            r == castle_mask(*self),
    {
        match self {
            Castle::wk => 1,
            Castle::wq => 2,
            Castle::bk => 4,
            Castle::bq => 8,
        }
    }
}

pub open spec fn castle_mask(c: Castle) -> usize {
    match c {
        Castle::wk => 1,
        Castle::wq => 2,
        Castle::bk => 4,
        Castle::bq => 8,
    }
}

/// Board squares in rank-major order from a8 (0) to h1 (63), with the
/// no-square sentinel (64) last.
#[allow(non_camel_case_types)]
#[derive(Debug, PartialEq, Eq, Copy, Clone, Structural)]
pub enum Sq {
    a8, b8, c8, d8, e8, f8, g8, h8,
    a7, b7, c7, d7, e7, f7, g7, h7,
    a6, b6, c6, d6, e6, f6, g6, h6,
    a5, b5, c5, d5, e5, f5, g5, h5,
    a4, b4, c4, d4, e4, f4, g4, h4,
    a3, b3, c3, d3, e3, f3, g3, h3,
    a2, b2, c2, d2, e2, f2, g2, h2,
    a1, b1, c1, d1, e1, f1, g1, h1, no_sq,
}

/// A move packed into one 32-bit record: source square (6 bits), target
/// square (6 bits), moved piece (4 bits), promotion piece (4 bits), then
/// the capture, en-passant, castling and double-push flags (1 bit each).
#[derive(Clone, Copy, Debug, PartialEq, Eq, Structural)]
pub struct Move {
    pub mv: u32,
}

/// The packed encoding of the eight move fields.
pub open spec fn encode_move(
    source_square: u32,
    target_square: u32,
    piece: u32,
    promoted: u32,
    capture: u32,
    enpassant: u32,
    castling: u32,
    double_push: u32,
) -> u32
    recommends
        source_square < 64,
        target_square < 64,
        piece < 16,
        promoted < 16,
        capture <= 1,
        enpassant <= 1,
        castling <= 1,
        double_push <= 1,
{
    (source_square + (target_square << 6) + (piece << 12) + (promoted << 16) + (capture << 20)
        + (enpassant << 21) + (castling << 22) + (double_push << 23)) as u32
}

impl Move {
    /// The decoded source square.
    pub open spec fn source(self) -> u32 {
        self.mv & 0x3f
    }

    /// The decoded target square.
    pub open spec fn target(self) -> u32 {
        (self.mv & 0xfc0) >> 6u32
    }

    /// The decoded moved piece index.
    pub open spec fn piece(self) -> u32 {
        (self.mv & 0xf000) >> 12u32
    }

    /// The decoded promotion piece index (0 meaning none).
    pub open spec fn promoted(self) -> u32 {
        (self.mv & 0xf0000) >> 16u32
    }

    pub open spec fn is_capture(self) -> bool {
        self.mv & 0x100000 != 0
    }

    pub open spec fn is_enpassant(self) -> bool {
        self.mv & 0x200000 != 0
    }

    pub open spec fn is_castling(self) -> bool {
        self.mv & 0x400000 != 0
    }

    pub open spec fn is_double_push(self) -> bool {
        self.mv & 0x800000 != 0
    }

    pub fn create(
        source_square: u32,
        target_square: u32,
        piece: Piece,
        promoted_piece: Piece,
        capture: u32,
        enpassant: u32,
        castling: u32,
        double_push: u32,
    ) -> (r: Move)
        requires
            source_square < 64,
            target_square < 64,
            capture <= 1,
            enpassant <= 1,
            castling <= 1,
            double_push <= 1,
        ensures
            r.mv == encode_move(
                source_square,
                target_square,
                piece_index(piece) as u32,
                piece_index(promoted_piece) as u32,
                capture,
                enpassant,
                castling,
                double_push,
            ),
            r.source() == source_square,
            r.target() == target_square,
            r.piece() == piece_index(piece),
            r.promoted() == piece_index(promoted_piece),
            r.is_capture() == (capture == 1),
            r.is_enpassant() == (enpassant == 1),
            r.is_castling() == (castling == 1),
            r.is_double_push() == (double_push == 1),
    {
        let pi: u32 = piece.to_usize() as u32;
        let pp: u32 = promoted_piece.to_usize() as u32;
        proof {
            lemma_move_term_bounds(target_square, pi, pp, capture, enpassant, castling, double_push);
        }
        let value: u32 = source_square + (target_square << 6u32) + (pi << 12u32) + (pp << 16u32)
            + (capture << 20u32) + (enpassant << 21u32) + (castling << 22u32) + (double_push
            << 23u32);
        proof {
            lemma_move_encoding_roundtrip(
                source_square,
                target_square,
                pi,
                pp,
                capture,
                enpassant,
                castling,
                double_push,
            );
        }
        Move { mv: value }
    }

    pub fn get_source_square(&self) -> (r: u32)
        ensures
            r == self.source(),
            r < 64,
    {
        proof {
            lemma_move_field_ranges(self.mv);
        }
        self.mv & 0x3f
    }

    pub fn get_target_square(&self) -> (r: u32)
        ensures
            r == self.target(),
            r < 64,
    {
        proof {
            lemma_move_field_ranges(self.mv);
        }
        (self.mv & 0xfc0) >> 6u32
    }

    pub fn get_piece(&self) -> (r: u32)
        ensures
            r == self.piece(),
            r < 16,
    {
        proof {
            lemma_move_field_ranges(self.mv);
        }
        (self.mv & 0xf000) >> 12u32
    }

    pub fn get_promoted(&self) -> (r: u32)
        ensures
            r == self.promoted(),
            r < 16,
    {
        proof {
            lemma_move_field_ranges(self.mv);
        }
        (self.mv & 0xf0000) >> 16u32
    }

    pub fn get_capture(&self) -> (r: bool)
        ensures
            r == self.is_capture(),
    {
        if self.mv & 0x100000 > 0 {
            return true;
        }
        false
    }

    pub fn get_enpassant(&self) -> (r: bool)
        ensures
            r == self.is_enpassant(),
    {
        if self.mv & 0x200000 > 0 {
            return true;
        }
        false
    }

    pub fn get_castling(&self) -> (r: bool)
        ensures
            r == self.is_castling(),
    {
        if self.mv & 0x400000 > 0 {
            return true;
        }
        false
    }

    pub fn get_double_pawn_push(&self) -> (r: bool)
        ensures
            r == self.is_double_push(),
    {
        if self.mv & 0x800000 > 0 {
            return true;
        }
        false
    }
}

/// Law: decoding a packed move recovers every field it was encoded
/// from, for all field values across their full valid ranges.
pub proof fn lemma_move_encoding_roundtrip(
    s: u32,
    t: u32,
    pi: u32,
    pp: u32,
    c: u32,
    e: u32,
    ca: u32,
    d: u32,
)
    requires
        s < 64,
        t < 64,
        pi < 16,
        pp < 16,
        c <= 1,
        e <= 1,
        ca <= 1,
        d <= 1,
    ensures
        (Move { mv: encode_move(s, t, pi, pp, c, e, ca, d) }).source() == s,
        (Move { mv: encode_move(s, t, pi, pp, c, e, ca, d) }).target() == t,
        (Move { mv: encode_move(s, t, pi, pp, c, e, ca, d) }).piece() == pi,
        (Move { mv: encode_move(s, t, pi, pp, c, e, ca, d) }).promoted() == pp,
        (Move { mv: encode_move(s, t, pi, pp, c, e, ca, d) }).is_capture() == (c == 1),
        (Move { mv: encode_move(s, t, pi, pp, c, e, ca, d) }).is_enpassant() == (e == 1),
        (Move { mv: encode_move(s, t, pi, pp, c, e, ca, d) }).is_castling() == (ca == 1),
        (Move { mv: encode_move(s, t, pi, pp, c, e, ca, d) }).is_double_push() == (d == 1),
{
    let v = (s + (t << 6) + (pi << 12) + (pp << 16) + (c << 20) + (e << 21) + (ca << 22) + (d
        << 23)) as u32;
    assert(s + (t << 6) + (pi << 12) + (pp << 16) + (c << 20) + (e << 21) + (ca << 22) + (d << 23)
        <= 0xffff_ffff && v & 0x3f == s && (v & 0xfc0) >> 6u32 == t && (v & 0xf000) >> 12u32 == pi
        && (v & 0xf0000) >> 16u32 == pp && ((v & 0x100000 != 0) == (c == 1)) && ((v & 0x200000
        != 0) == (e == 1)) && ((v & 0x400000 != 0) == (ca == 1)) && ((v & 0x800000 != 0) == (d
        == 1))) by (bit_vector)
        requires
            s < 64 && t < 64 && pi < 16 && pp < 16 && c <= 1 && e <= 1 && ca <= 1 && d <= 1 && v
                == (s + (t << 6) + (pi << 12) + (pp << 16) + (c << 20) + (e << 21) + (ca << 22) + (
            d << 23)) as u32,
    ;
}

/// Bounds of the shifted encoding terms, so that their sum fits in 32 bits.
proof fn lemma_move_term_bounds(t: u32, pi: u32, pp: u32, c: u32, e: u32, ca: u32, d: u32)
    by (bit_vector)
    requires
        t < 64,
        pi < 16,
        pp < 16,
        c <= 1,
        e <= 1,
        ca <= 1,
        d <= 1,
    ensures
        (t << 6u32) <= 0xfc0,
        (pi << 12u32) <= 0xf000,
        (pp << 16u32) <= 0xf0000,
        (c << 20u32) <= 0x100000,
        (e << 21u32) <= 0x200000,
        (ca << 22u32) <= 0x400000,
        (d << 23u32) <= 0x800000,
{
}

/// The source and target fields of any packed record are squares, and
/// the piece fields fit in four bits.
pub proof fn lemma_move_field_ranges(v: u32)
    by (bit_vector)
    ensures
        v & 0x3f < 64,
        (v & 0xfc0) >> 6u32 < 64,
        (v & 0xf000) >> 12u32 < 16,
        (v & 0xf0000) >> 16u32 < 16,
{
}


/// The file letter of a file index (0 through 7 give 'a' through 'h').
pub open spec fn file_char(f: int) -> char {
    if f == 0 {
        'a'
    } else if f == 1 {
        'b'
    } else if f == 2 {
        'c'
    } else if f == 3 {
        'd'
    } else if f == 4 {
        'e'
    } else if f == 5 {
        'f'
    } else if f == 6 {
        'g'
    } else {
        'h'
    }
}

/// The rank digit of a rank index (0 is the top rank '8', 7 is '1').
pub open spec fn rank_char(r: int) -> char {
    if r == 0 {
        '8'
    } else if r == 1 {
        '7'
    } else if r == 2 {
        '6'
    } else if r == 3 {
        '5'
    } else if r == 4 {
        '4'
    } else if r == 5 {
        '3'
    } else if r == 6 {
        '2'
    } else {
        '1'
    }
}

/// The two-character coordinate name of a square.
pub open spec fn square_name(sq: int) -> Seq<char>
    recommends
        0 <= sq < 64,
{
    seq![file_char(sq % 8), rank_char(sq / 8)]
}

/// The trailing promotion letter of a move, lowercase for both colors,
/// empty when the move promotes nothing.
pub open spec fn promo_letter(promoted: int) -> Seq<char> {
    if promoted == 4 || promoted == 10 {
        seq!['q']
    } else if promoted == 1 || promoted == 7 {
        seq!['n']
    } else if promoted == 3 || promoted == 9 {
        seq!['r']
    } else if promoted == 2 || promoted == 8 {
        seq!['b']
    } else {
        Seq::empty()
    }
}

/// The algebraic rendering of a move: source and target coordinates, then
/// the promotion letter if any.
pub open spec fn move_alg_spec(m: Move) -> Seq<char> {
    square_name(m.source() as int) + square_name(m.target() as int) + promo_letter(
        m.promoted() as int,
    )
}

/// The file letter of a file index, as a one-character string.
fn file_str(f: usize) -> (s: &'static str)
    requires
        f < 8,
    ensures
        s@ =~= seq![file_char(f as int)],
{
    proof {
        reveal_strlit("a");
        reveal_strlit("b");
        reveal_strlit("c");
        reveal_strlit("d");
        reveal_strlit("e");
        reveal_strlit("f");
        reveal_strlit("g");
        reveal_strlit("h");
    }
    if f == 0 {
        "a"
    } else if f == 1 {
        "b"
    } else if f == 2 {
        "c"
    } else if f == 3 {
        "d"
    } else if f == 4 {
        "e"
    } else if f == 5 {
        "f"
    } else if f == 6 {
        "g"
    } else {
        "h"
    }
}

/// The rank digit of a rank index, as a one-character string.
fn rank_str(r: usize) -> (s: &'static str)
    requires
        r < 8,
    ensures
        s@ =~= seq![rank_char(r as int)],
{
    proof {
        reveal_strlit("1");
        reveal_strlit("2");
        reveal_strlit("3");
        reveal_strlit("4");
        reveal_strlit("5");
        reveal_strlit("6");
        reveal_strlit("7");
        reveal_strlit("8");
    }
    if r == 0 {
        "8"
    } else if r == 1 {
        "7"
    } else if r == 2 {
        "6"
    } else if r == 3 {
        "5"
    } else if r == 4 {
        "4"
    } else if r == 5 {
        "3"
    } else if r == 6 {
        "2"
    } else {
        "1"
    }
}

/// Renders a move in coordinate notation: "e2e4", or "e7e8q" for a queen
/// promotion, with a lowercase letter for either color's promotion.
pub fn move_to_alg(mv: &Move) -> (r: String)
    ensures
        r@ =~= move_alg_spec(*mv),
{
    let source = mv.get_source_square() as usize;
    let target = mv.get_target_square() as usize;
    let promoted = mv.get_promoted();
    let mut s = String::new();
    s.append(file_str(source % 8));
    s.append(rank_str(source / 8));
    s.append(file_str(target % 8));
    s.append(rank_str(target / 8));
    if promoted == 4 || promoted == 10 {
        proof {
            reveal_strlit("q");
        }
        s.append("q");
    } else if promoted == 1 || promoted == 7 {
        proof {
            reveal_strlit("n");
        }
        s.append("n");
    } else if promoted == 3 || promoted == 9 {
        proof {
            reveal_strlit("r");
        }
        s.append("r");
    } else if promoted == 2 || promoted == 8 {
        proof {
            reveal_strlit("b");
        }
        s.append("b");
    }
    s
}

/// A well-formed two-character coordinate: a file letter then a rank
/// digit.
pub open spec fn coord_wf(s: Seq<char>) -> bool {
    &&& s.len() >= 2
    &&& 97 <= s[0] as int <= 104
    &&& 49 <= s[1] as int <= 56
}

/// The square a coordinate pair names.
pub open spec fn coord_square(s: Seq<char>) -> int
    recommends
        coord_wf(s),
{
    (s[0] as int - 97) + 8 * (8 - (s[1] as int - 48))
}

/// Reads a square index from the first two characters of a coordinate
/// such as "e4".
pub fn coordinates_to_squares(coordinatestr: &str) -> (sq: usize)
    requires
        coord_wf(coordinatestr@),
    ensures
        sq == coord_square(coordinatestr@),
        sq < 64,
{
    let first = coordinatestr.get_char(0);
    let second = coordinatestr.get_char(1);
    let file = (first as u32 - 97) as usize;
    let digit = (second as u32 - 48) as usize;
    file + 8 * (8 - digit)
}

} // verus!
