//! The sixteen piece identities and their packed 4-bit encoding.

use vstd::prelude::*;

verus! {

/// One of the sixteen pieces of the puzzle, named after its sticker colors.
/// White pieces live in the top layer of the solved puzzle, yellow pieces in
/// the bottom layer.  Three-color pieces are "big": they occupy two adjacent
/// slots of their layer; two-color pieces occupy a single slot.
#[derive(Debug, Clone, Copy, PartialEq, Eq, Hash, Structural)]
pub enum Piece {
    WhiteRedBlue,
    WhiteBlue,
    WhiteBlueOrange,
    WhiteOrange,
    WhiteOrangeGreen,
    WhiteGreen,
    WhiteGreenRed,
    WhiteRed,
    YellowOrange,
    YellowOrangeBlue,
    YellowBlue,
    YellowBlueRed,
    YellowRed,
    YellowRedGreen,
    YellowGreen,
    YellowGreenOrange,
}

/// The 4-bit tag built from a piece's cyclic sequence number and its layer
/// color: bits 1..=3 hold the sequence, bit 0 is set for yellow pieces.
pub open spec fn spec_piece_bits(seq: u64, yellow: bool) -> int {
    2 * seq + (if yellow {
        1int
    } else {
        0int
    })
}

/// Pack a sequence number and a layer color into a piece tag.
pub fn piece_bits(seq: u64, yellow: bool) -> (r: u64)
    requires
        seq < 8,
    ensures
        r == spec_piece_bits(seq, yellow),
        r < 16,
{
    let flag: u64 = if yellow {
        1
    } else {
        0
    };
    proof {
        assert((seq << 1u64) | flag == 2 * seq + flag) by (bit_vector)
            requires
                seq < 8 && flag < 2,
        ;
    }
    (seq << 1u64) | flag
}

impl Piece {
    /// The packed 4-bit encoding of this piece.
    pub open spec fn spec_as_bits(self) -> u64 {
        match self {
            Piece::WhiteRedBlue => 2,
            Piece::WhiteBlue => 4,
            Piece::WhiteBlueOrange => 6,
            Piece::WhiteOrange => 8,
            Piece::WhiteOrangeGreen => 10,
            Piece::WhiteGreen => 12,
            Piece::WhiteGreenRed => 14,
            Piece::WhiteRed => 0,
            Piece::YellowOrange => 1,
            Piece::YellowOrangeBlue => 3,
            Piece::YellowBlue => 5,
            Piece::YellowBlueRed => 7,
            Piece::YellowRed => 9,
            Piece::YellowRedGreen => 11,
            Piece::YellowGreen => 13,
            Piece::YellowGreenOrange => 15,
        }
    }

    /// The piece encoded by a 4-bit tag; inverse of [`Piece::as_bits`].
    pub open spec fn spec_from_bits(bits: u64) -> Piece
        recommends
            bits < 16,
    {
        if bits == 2 {
            Piece::WhiteRedBlue
        } else if bits == 4 {
            Piece::WhiteBlue
        } else if bits == 6 {
            Piece::WhiteBlueOrange
        } else if bits == 8 {
            Piece::WhiteOrange
        } else if bits == 10 {
            Piece::WhiteOrangeGreen
        } else if bits == 12 {
            Piece::WhiteGreen
        } else if bits == 14 {
            Piece::WhiteGreenRed
        } else if bits == 0 {
            Piece::WhiteRed
        } else if bits == 1 {
            Piece::YellowOrange
        } else if bits == 3 {
            Piece::YellowOrangeBlue
        } else if bits == 5 {
            Piece::YellowBlue
        } else if bits == 7 {
            Piece::YellowBlueRed
        } else if bits == 9 {
            Piece::YellowRed
        } else if bits == 11 {
            Piece::YellowRedGreen
        } else if bits == 13 {
            Piece::YellowGreen
        } else {
            Piece::YellowGreenOrange
        }
    }

    /// How many slots of a layer this piece occupies.
    pub open spec fn spec_size(self) -> u8 {
        match self {
            Piece::WhiteRedBlue
            | Piece::WhiteBlueOrange
            | Piece::WhiteOrangeGreen
            | Piece::WhiteGreenRed
            | Piece::YellowOrangeBlue
            | Piece::YellowBlueRed
            | Piece::YellowRedGreen
            | Piece::YellowGreenOrange => 2,
            _ => 1,
        }
    }

    /// Encode this piece as its 4-bit tag.
    pub fn as_bits(self) -> (r: u64)
        ensures
            r == self.spec_as_bits(),
            r < 16,
    {
        match self {
            Piece::WhiteRedBlue => piece_bits(1, false),
            Piece::WhiteBlue => piece_bits(2, false),
            Piece::WhiteBlueOrange => piece_bits(3, false),
            Piece::WhiteOrange => piece_bits(4, false),
            Piece::WhiteOrangeGreen => piece_bits(5, false),
            Piece::WhiteGreen => piece_bits(6, false),
            Piece::WhiteGreenRed => piece_bits(7, false),
            Piece::WhiteRed => piece_bits(0, false),
            Piece::YellowOrange => piece_bits(0, true),
            Piece::YellowOrangeBlue => piece_bits(1, true),
            Piece::YellowBlue => piece_bits(2, true),
            Piece::YellowBlueRed => piece_bits(3, true),
            Piece::YellowRed => piece_bits(4, true),
            Piece::YellowRedGreen => piece_bits(5, true),
            Piece::YellowGreen => piece_bits(6, true),
            Piece::YellowGreenOrange => piece_bits(7, true),
        }
    }

    /// Decode a 4-bit tag back into a piece.  Every tag below 16 encodes a
    /// piece; larger values never occur in a packed configuration.
    pub fn from_bits(bits: u64) -> (r: Piece)
        requires
            bits < 16,
        ensures
            r == Piece::spec_from_bits(bits),
    {
        if bits == 2 {
            Piece::WhiteRedBlue
        } else if bits == 4 {
            Piece::WhiteBlue
        } else if bits == 6 {
            Piece::WhiteBlueOrange
        } else if bits == 8 {
            Piece::WhiteOrange
        } else if bits == 10 {
            Piece::WhiteOrangeGreen
        } else if bits == 12 {
            Piece::WhiteGreen
        } else if bits == 14 {
            Piece::WhiteGreenRed
        } else if bits == 0 {
            Piece::WhiteRed
        } else if bits == 1 {
            Piece::YellowOrange
        } else if bits == 3 {
            Piece::YellowOrangeBlue
        } else if bits == 5 {
            Piece::YellowBlue
        } else if bits == 7 {
            Piece::YellowBlueRed
        } else if bits == 9 {
            Piece::YellowRed
        } else if bits == 11 {
            Piece::YellowRedGreen
        } else if bits == 13 {
            Piece::YellowGreen
        } else {
            Piece::YellowGreenOrange
        }
    }

    /// How many slots of a layer this piece occupies: 2 for big pieces,
    /// 1 for small ones.
    pub fn size(self) -> (r: u8)
        ensures
            r == self.spec_size(),
    {
        match self {
            Piece::WhiteRedBlue
            | Piece::WhiteBlueOrange
            | Piece::WhiteOrangeGreen
            | Piece::WhiteGreenRed
            | Piece::YellowOrangeBlue
            | Piece::YellowBlueRed
            | Piece::YellowRedGreen
            | Piece::YellowGreenOrange => 2,
            Piece::WhiteBlue
            | Piece::WhiteOrange
            | Piece::WhiteGreen
            | Piece::WhiteRed
            | Piece::YellowOrange
            | Piece::YellowBlue
            | Piece::YellowRed
            | Piece::YellowGreen => 1,
        }
    }

    /// The short sticker-color label of this piece.
    pub open spec fn spec_label(self) -> Seq<char> {
        match self {
            Piece::WhiteRedBlue => ("WRB")@,
            Piece::WhiteBlue => ("WB")@,
            Piece::WhiteBlueOrange => ("WBO")@,
            Piece::WhiteOrange => ("WO")@,
            Piece::WhiteOrangeGreen => ("WOG")@,
            Piece::WhiteGreen => ("WG")@,
            Piece::WhiteGreenRed => ("WGR")@,
            Piece::WhiteRed => ("WR")@,
            Piece::YellowOrange => ("YO")@,
            Piece::YellowOrangeBlue => ("YOB")@,
            Piece::YellowBlue => ("YB")@,
            Piece::YellowBlueRed => ("YBR")@,
            Piece::YellowRed => ("YR")@,
            Piece::YellowRedGreen => ("YRG")@,
            Piece::YellowGreen => ("YG")@,
            Piece::YellowGreenOrange => ("YGO")@,
        }
    }

    /// The short sticker-color label of this piece.
    pub fn label(self) -> (r: &'static str)
        ensures
            r@ == self.spec_label(),
    {
        match self {
            Piece::WhiteRedBlue => "WRB",
            Piece::WhiteBlue => "WB",
            Piece::WhiteBlueOrange => "WBO",
            Piece::WhiteOrange => "WO",
            Piece::WhiteOrangeGreen => "WOG",
            Piece::WhiteGreen => "WG",
            Piece::WhiteGreenRed => "WGR",
            Piece::WhiteRed => "WR",
            Piece::YellowOrange => "YO",
            Piece::YellowOrangeBlue => "YOB",
            Piece::YellowBlue => "YB",
            Piece::YellowBlueRed => "YBR",
            Piece::YellowRed => "YR",
            Piece::YellowRedGreen => "YRG",
            Piece::YellowGreen => "YG",
            Piece::YellowGreenOrange => "YGO",
        }
    }
}

/// The packed pattern of a piece sequence: the first piece ends up in the
/// highest occupied bits, the last piece in the lowest four.
pub open spec fn pack_pieces(s: Seq<Piece>) -> u64
    decreases s.len(),
{
    if s.len() == 0 {
        0
    } else {
        (pack_pieces(s.drop_last()) << 4) | s.last().spec_as_bits()
    }
}

/// Law: decoding the encoding of any piece yields the same piece, and
/// encoding the decoding of any 4-bit tag yields the same tag, so the
/// packed encoding is a bijection between pieces and tags.
pub proof fn lemma_piece_codec_round_trip(p: Piece, bits: u64)
    requires
        bits < 16,
    ensures
        Piece::spec_from_bits(p.spec_as_bits()) == p,
        Piece::spec_from_bits(bits).spec_as_bits() == bits,
{
}

} // verus!
