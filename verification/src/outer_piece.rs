//! The pieces of the half-slot layer model: every big piece is represented
//! by two half-pieces, so a layer is always exactly twelve entries.

use vstd::prelude::*;

verus! {

/// Represent the pieces that can be in the top or bottom layers.  A large
/// piece is in fact represented by two pieces; only the first of the two can
/// have a cut before it.
#[derive(Debug, Clone, Copy, Hash, PartialEq, Eq, Structural)]
pub enum OuterPiece {
    WhiteRedBlue1,
    WhiteRedBlue2,
    WhiteBlue,
    WhiteBlueOrange1,
    WhiteBlueOrange2,
    WhiteOrange,
    WhiteOrangeGreen1,
    WhiteOrangeGreen2,
    WhiteGreen,
    WhiteGreenRed1,
    WhiteGreenRed2,
    WhiteRed,
    YellowOrangeBlue1,
    YellowOrangeBlue2,
    YellowBlue,
    YellowBlueRed1,
    YellowBlueRed2,
    YellowRed,
    YellowRedGreen1,
    YellowRedGreen2,
    YellowGreen,
    YellowGreenOrange1,
    YellowGreenOrange2,
    YellowOrange,
    Unknown,
}

/// The tag of a piece: the cyclic sequence number in the high bits, then a
/// layer-color bit, then a bit telling whether a cut may fall before it.
pub open spec fn spec_piece_tag(sequence: u8, is_white: bool, can_split_before: bool) -> int {
    4 * sequence + (if is_white {
        2int
    } else {
        0int
    }) + (if can_split_before {
        1int
    } else {
        0int
    })
}

/// Pack a sequence number, layer color, and cut flag into a piece tag.
pub fn piece_tag(sequence: u8, is_white: bool, can_split_before: bool) -> (r: u8)
    requires
        sequence < 64,
    ensures
        r == spec_piece_tag(sequence, is_white, can_split_before),
{
    let color: u8 = if is_white {
        2
    } else {
        0
    };
    let cut: u8 = if can_split_before {
        1
    } else {
        0
    };
    4 * sequence + color + cut
}

impl OuterPiece {
    /// The position of this piece in the solved cyclic order of its layer.
    pub open spec fn spec_sequence(self) -> u8 {
        match self {
            OuterPiece::WhiteRedBlue1 => 0,
            OuterPiece::WhiteRedBlue2 => 1,
            OuterPiece::WhiteBlue => 2,
            OuterPiece::WhiteBlueOrange1 => 3,
            OuterPiece::WhiteBlueOrange2 => 4,
            OuterPiece::WhiteOrange => 5,
            OuterPiece::WhiteOrangeGreen1 => 6,
            OuterPiece::WhiteOrangeGreen2 => 7,
            OuterPiece::WhiteGreen => 8,
            OuterPiece::WhiteGreenRed1 => 9,
            OuterPiece::WhiteGreenRed2 => 10,
            OuterPiece::WhiteRed => 11,
            OuterPiece::YellowOrangeBlue1 => 0,
            OuterPiece::YellowOrangeBlue2 => 1,
            OuterPiece::YellowBlue => 2,
            OuterPiece::YellowBlueRed1 => 3,
            OuterPiece::YellowBlueRed2 => 4,
            OuterPiece::YellowRed => 5,
            OuterPiece::YellowRedGreen1 => 6,
            OuterPiece::YellowRedGreen2 => 7,
            OuterPiece::YellowGreen => 8,
            OuterPiece::YellowGreenOrange1 => 9,
            OuterPiece::YellowGreenOrange2 => 10,
            OuterPiece::YellowOrange => 11,
            OuterPiece::Unknown => 63,
        }
    }

    /// Whether this piece belongs to the white (top) layer.
    pub open spec fn spec_is_white(self) -> bool {
        match self {
            OuterPiece::WhiteRedBlue1
            | OuterPiece::WhiteRedBlue2
            | OuterPiece::WhiteBlue
            | OuterPiece::WhiteBlueOrange1
            | OuterPiece::WhiteBlueOrange2
            | OuterPiece::WhiteOrange
            | OuterPiece::WhiteOrangeGreen1
            | OuterPiece::WhiteOrangeGreen2
            | OuterPiece::WhiteGreen
            | OuterPiece::WhiteGreenRed1
            | OuterPiece::WhiteGreenRed2
            | OuterPiece::WhiteRed
            | OuterPiece::Unknown => true,
            _ => false,
        }
    }

    /// Whether a half-layer boundary may fall before this piece: true for
    /// whole pieces and for the first half of a big piece.
    pub open spec fn spec_can_split_before(self) -> bool {
        match self {
            OuterPiece::WhiteRedBlue2
            | OuterPiece::WhiteBlueOrange2
            | OuterPiece::WhiteOrangeGreen2
            | OuterPiece::WhiteGreenRed2
            | OuterPiece::YellowOrangeBlue2
            | OuterPiece::YellowBlueRed2
            | OuterPiece::YellowRedGreen2
            | OuterPiece::YellowGreenOrange2 => false,
            _ => true,
        }
    }

    /// The full tag of this piece.
    pub open spec fn spec_tag(self) -> int {
        if self is Unknown {
            255
        } else {
            spec_piece_tag(
                self.spec_sequence(),
                self.spec_is_white(),
                self.spec_can_split_before(),
            )
        }
    }

    /// Whether `other` is the successor of this piece in a solved layer.
    pub open spec fn spec_is_followed_by(self, other: OuterPiece) -> bool {
        &&& self.spec_is_white() == other.spec_is_white()
        &&& (self.spec_sequence() + 1) % 12 == other.spec_sequence()
    }

    /// The dedup id of this piece: a unique four-bit value for each of the
    /// sixteen pieces that can start a cut, and nothing for the second half
    /// of a big piece.
    pub open spec fn spec_id(self) -> Option<u8> {
        match self {
            OuterPiece::WhiteRedBlue1 => Some(8u8),
            OuterPiece::WhiteBlue => Some(9u8),
            OuterPiece::WhiteBlueOrange1 => Some(10u8),
            OuterPiece::WhiteOrange => Some(11u8),
            OuterPiece::WhiteOrangeGreen1 => Some(12u8),
            OuterPiece::WhiteGreen => Some(13u8),
            OuterPiece::WhiteGreenRed1 => Some(14u8),
            OuterPiece::WhiteRed => Some(15u8),
            OuterPiece::YellowOrangeBlue1 => Some(0u8),
            OuterPiece::YellowBlue => Some(1u8),
            OuterPiece::YellowBlueRed1 => Some(2u8),
            OuterPiece::YellowRed => Some(3u8),
            OuterPiece::YellowRedGreen1 => Some(4u8),
            OuterPiece::YellowGreen => Some(5u8),
            OuterPiece::YellowGreenOrange1 => Some(6u8),
            OuterPiece::YellowOrange => Some(7u8),
            _ => None,
        }
    }

    /// The position of this piece in the solved cyclic order of its layer.
    pub fn sequence(self) -> (r: u8)
        ensures
            r == self.spec_sequence(),
    {
        self.tag() / 4
    }

    /// Whether this piece belongs to the white (top) layer.
    pub fn is_white(self) -> (r: bool)
        ensures
            r == self.spec_is_white(),
    {
        self.tag() % 4 >= 2
    }

    /// Whether a half-layer boundary may fall before this piece.
    pub fn can_split_before(self) -> (r: bool)
        ensures
            r == self.spec_can_split_before(),
    {
        self.tag() % 2 == 1
    }

    /// The full tag of this piece.
    pub fn tag(self) -> (r: u8)
        ensures
            r == self.spec_tag(),
    {
        match self {
            OuterPiece::WhiteRedBlue1 => 3,
            OuterPiece::WhiteRedBlue2 => 6,
            OuterPiece::WhiteBlue => 11,
            OuterPiece::WhiteBlueOrange1 => 15,
            OuterPiece::WhiteBlueOrange2 => 18,
            OuterPiece::WhiteOrange => 23,
            OuterPiece::WhiteOrangeGreen1 => 27,
            OuterPiece::WhiteOrangeGreen2 => 30,
            OuterPiece::WhiteGreen => 35,
            OuterPiece::WhiteGreenRed1 => 39,
            OuterPiece::WhiteGreenRed2 => 42,
            OuterPiece::WhiteRed => 47,
            OuterPiece::YellowOrangeBlue1 => 1,
            OuterPiece::YellowOrangeBlue2 => 4,
            OuterPiece::YellowBlue => 9,
            OuterPiece::YellowBlueRed1 => 13,
            OuterPiece::YellowBlueRed2 => 16,
            OuterPiece::YellowRed => 21,
            OuterPiece::YellowRedGreen1 => 25,
            OuterPiece::YellowRedGreen2 => 28,
            OuterPiece::YellowGreen => 33,
            OuterPiece::YellowGreenOrange1 => 37,
            OuterPiece::YellowGreenOrange2 => 40,
            OuterPiece::YellowOrange => 45,
            OuterPiece::Unknown => 255,
        }
    }

    /// Return whether the other piece is the successor of this one in a
    /// solved position.
    pub fn is_followed_by(self, other: Self) -> (r: bool)
        ensures
            r == self.spec_is_followed_by(other),
    {
        let next_sequence = (self.sequence() + 1) % 12;
        self.is_white() == other.is_white() && next_sequence == other.sequence()
    }

    /// The dedup id of this piece, if it can start a cut.
    pub fn id(self) -> (r: Option<u8>)
        ensures
            r == self.spec_id(),
    {
        match self {
            OuterPiece::WhiteRedBlue1 => Some(8),
            OuterPiece::WhiteBlue => Some(9),
            OuterPiece::WhiteBlueOrange1 => Some(10),
            OuterPiece::WhiteOrange => Some(11),
            OuterPiece::WhiteOrangeGreen1 => Some(12),
            OuterPiece::WhiteGreen => Some(13),
            OuterPiece::WhiteGreenRed1 => Some(14),
            OuterPiece::WhiteRed => Some(15),
            OuterPiece::YellowOrangeBlue1 => Some(0),
            OuterPiece::YellowBlue => Some(1),
            OuterPiece::YellowBlueRed1 => Some(2),
            OuterPiece::YellowRed => Some(3),
            OuterPiece::YellowRedGreen1 => Some(4),
            OuterPiece::YellowGreen => Some(5),
            OuterPiece::YellowGreenOrange1 => Some(6),
            OuterPiece::YellowOrange => Some(7),
            _ => None,
        }
    }

    /// The display label of this piece: the sticker colors for a piece that
    /// can start a cut, nothing for the second half of a big piece.
    pub fn label(self) -> (r: &'static str)
    {
        match self {
            OuterPiece::WhiteRedBlue1 => "WRB",
            OuterPiece::WhiteRedBlue2 => "",
            OuterPiece::WhiteBlue => "WB",
            OuterPiece::WhiteBlueOrange1 => "WBO",
            OuterPiece::WhiteBlueOrange2 => "",
            OuterPiece::WhiteOrange => "WO",
            OuterPiece::WhiteOrangeGreen1 => "WOG",
            OuterPiece::WhiteOrangeGreen2 => "",
            OuterPiece::WhiteGreen => "WG",
            OuterPiece::WhiteGreenRed1 => "WGR",
            OuterPiece::WhiteGreenRed2 => "",
            OuterPiece::WhiteRed => "WR",
            OuterPiece::YellowOrange => "YO",
            OuterPiece::YellowOrangeBlue1 => "YOB",
            OuterPiece::YellowOrangeBlue2 => "",
            OuterPiece::YellowBlue => "YB",
            OuterPiece::YellowBlueRed1 => "YBR",
            OuterPiece::YellowBlueRed2 => "",
            OuterPiece::YellowRed => "YR",
            OuterPiece::YellowRedGreen1 => "YRG",
            OuterPiece::YellowRedGreen2 => "",
            OuterPiece::YellowGreen => "YG",
            OuterPiece::YellowGreenOrange1 => "YGO",
            OuterPiece::YellowGreenOrange2 => "",
            OuterPiece::Unknown => "*",
        }
    }
}

} // verus!
