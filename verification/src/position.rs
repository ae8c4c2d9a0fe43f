//! A full configuration in the half-slot model: two layers and the middle
//! linkage, with its move enumeration, score, and dense encoding.

use crate::outer_layer::{spec_layer_shifts, spec_rotated, spec_solved_score, OuterLayer};
use crate::outer_piece::OuterPiece;
use vstd::prelude::*;

verus! {

/// A full configuration: the top layer, the middle linkage, and the bottom
/// layer.
#[derive(Debug, Clone, Copy, PartialEq, Eq)]
pub struct Position {
    /// The white layer.
    pub top: OuterLayer,
    /// Whether the middle linkage sits in its solved orientation.
    pub middle_solved: bool,
    /// The yellow layer.
    pub bottom: OuterLayer,
}

/// Represents the allowed movements from this position.
///
/// Bit 0 = can rotate bottom
/// Bit 1 = can flip
/// Bit 2 = can rotate top
#[derive(Debug, Clone, Copy, PartialEq, Eq, Structural)]
pub struct MovementKind(pub u8);

/// A move together with the position it produces and the moves allowed
/// after it.
#[derive(Debug, Clone, Copy, PartialEq, Eq)]
pub struct Movement {
    /// The position reached by the move.
    pub position: Position,
    /// The moves allowed right after this one.
    pub next_kind: MovementKind,
    /// The move that was performed.
    pub change: MovementChange,
}

/// One atomic change of the configuration.
#[derive(Debug, Clone, Copy, PartialEq, Eq, Structural)]
pub enum MovementChange {
    /// Exchange the movable halves of the two layers.
    Flip,
    /// Rotate the top layer forward by the given number of entries.
    RotateTop(u8),
    /// Rotate the bottom layer forward by the given number of entries.
    RotateBottom(u8),
}

impl Position {
    /// A position is well formed when both its layers are.
    pub open spec fn wf(self) -> bool {
        self.top.wf() && self.bottom.wf()
    }

    /// Assemble a position from its parts.
    pub fn with_layers(top: OuterLayer, middle_solved: bool, bottom: OuterLayer) -> (r: Self)
        ensures
            r == (Position { top, middle_solved, bottom }),
    {
        Position { top, middle_solved, bottom }
    }

    /// The solved position.
    pub fn solved() -> (r: Position)
        ensures
            r.wf(),
            r.top.pieces@ == spec_solved_top(),
            r.middle_solved,
            r.bottom.pieces@ == spec_solved_bottom(),
    {
        let top = OuterLayer::new(
            [
                OuterPiece::WhiteRedBlue1,
                OuterPiece::WhiteRedBlue2,
                OuterPiece::WhiteBlue,
                OuterPiece::WhiteBlueOrange1,
                OuterPiece::WhiteBlueOrange2,
                OuterPiece::WhiteOrange,
                OuterPiece::WhiteOrangeGreen1,
                OuterPiece::WhiteOrangeGreen2,
                OuterPiece::WhiteGreen,
                OuterPiece::WhiteGreenRed1,
                OuterPiece::WhiteGreenRed2,
                OuterPiece::WhiteRed,
            ],
        );
        let bottom = OuterLayer::new(
            [
                OuterPiece::YellowOrange,
                OuterPiece::YellowOrangeBlue1,
                OuterPiece::YellowOrangeBlue2,
                OuterPiece::YellowBlue,
                OuterPiece::YellowBlueRed1,
                OuterPiece::YellowBlueRed2,
                OuterPiece::YellowRed,
                OuterPiece::YellowRedGreen1,
                OuterPiece::YellowRedGreen2,
                OuterPiece::YellowGreen,
                OuterPiece::YellowGreenOrange1,
                OuterPiece::YellowGreenOrange2,
            ],
        );
        proof {
            assert(top.pieces@ =~= spec_solved_top());
            assert(bottom.pieces@ =~= spec_solved_bottom());
        }
        Position::with_layers(top, true, bottom)
    }

    /// The position after one flip: the layers exchange their movable
    /// halves and the middle linkage toggles.
    pub fn flipped(self) -> (r: Self)
        requires
            self.wf(),
        ensures
            r.wf(),
            r.top.pieces@ == self.bottom.pieces@.subrange(0, 6) + self.top.pieces@.subrange(6, 12),
            r.bottom.pieces@ == self.top.pieces@.subrange(0, 6) + self.bottom.pieces@.subrange(
                6,
                12,
            ),
            r.middle_solved == !self.middle_solved,
    {
        let (flipped_top, flipped_bottom) = self.top.flip(self.bottom);
        Position::with_layers(flipped_top, !self.middle_solved, flipped_bottom)
    }

    /// Every movement allowed from this position by `kind`: the rotations of
    /// the top layer, then the flip, then the rotations of the bottom layer,
    /// each allowed group in turn.
    pub fn for_each_movement(&self, kind: MovementKind) -> (r: Vec<Movement>)
        requires
            self.wf(),
        ensures
            r@.len() == spec_movement_count(*self, kind),
            forall|j: int| 0 <= j < r@.len() ==> spec_movement_at(*self, kind, j, #[trigger] r@[j]),
            forall|j: int| 0 <= j < r@.len() ==> (#[trigger] r@[j]).position.wf(),
            forall|j: int|
                0 <= j < r@.len() ==> movement_matches(*self, #[trigger] r@[j].change, r@[j].position),
    {
        let mut out: Vec<Movement> = Vec::new();

        if kind.rotate_top() {
            let tops = self.top.for_each_movement();
            let mut i: usize = 0;
            while i < tops.len()
                invariant
                    self.wf(),
                    0 <= i <= tops@.len(),
                    forall|j: int|
                        0 <= j < tops@.len() ==> {
                            let e = #[trigger] tops@[j];
                            &&& e.0.wf()
                            &&& 1 <= e.1 < 12
                            &&& e.0.pieces@ == spec_rotated(self.top.pieces@, e.1 as int)
                        },
                    kind.spec_rotate_top(),
                    tops@.len() == spec_layer_shifts(self.top.pieces@, 6).len(),
                    forall|j: int| 0 <= j < tops@.len() ==> (#[trigger] tops@[j]).1 == spec_layer_shifts(self.top.pieces@, 6)[j],
                    out@.len() == i,
                    forall|j: int|
                        0 <= j < out@.len() ==> spec_movement_at(*self, kind, j, #[trigger] out@[j]),
                    forall|j: int| 0 <= j < out@.len() ==> (#[trigger] out@[j]).position.wf(),
                    forall|j: int|
                        0 <= j < out@.len() ==> movement_matches(
                            *self,
                            #[trigger] out@[j].change,
                            out@[j].position,
                        ),
                decreases tops@.len() - i,
            {
                let entry = tops[i];
                let new_position = Position::with_layers(entry.0, self.middle_solved, self.bottom);
                proof {
                    assert(entry.0.pieces@ == spec_rotated(self.top.pieces@, entry.1 as int));
                    assert(1 <= entry.1 < 12);
                    assert(movement_matches(
                        *self,
                        MovementChange::RotateTop(entry.1),
                        new_position,
                    ));
                }
                out.push(
                    Movement {
                        position: new_position,
                        next_kind: MovementKind::new(false, true, kind.rotate_bottom()),
                        change: MovementChange::RotateTop(entry.1),
                    },
                );
                i = i + 1;
            }
        }
        if kind.flip() {
            out.push(
                Movement {
                    position: self.flipped(),
                    next_kind: MovementKind::new(true, false, true),
                    change: MovementChange::Flip,
                },
            );
        }
        if kind.rotate_bottom() {
            let bottoms = self.bottom.for_each_movement();
            let mut i: usize = 0;
            while i < bottoms.len()
                invariant
                    self.wf(),
                    0 <= i <= bottoms@.len(),
                    forall|j: int|
                        0 <= j < bottoms@.len() ==> {
                            let e = #[trigger] bottoms@[j];
                            &&& e.0.wf()
                            &&& 1 <= e.1 < 12
                            &&& e.0.pieces@ == spec_rotated(self.bottom.pieces@, e.1 as int)
                        },
                    kind.spec_rotate_bottom(),
                    bottoms@.len() == spec_layer_shifts(self.bottom.pieces@, 6).len(),
                    forall|j: int| 0 <= j < bottoms@.len() ==> (#[trigger] bottoms@[j]).1 == spec_layer_shifts(self.bottom.pieces@, 6)[j],
                    out@.len() == spec_movement_count(*self, kind) - bottoms@.len() + i,
                    forall|j: int|
                        0 <= j < out@.len() ==> spec_movement_at(*self, kind, j, #[trigger] out@[j]),
                    forall|j: int| 0 <= j < out@.len() ==> (#[trigger] out@[j]).position.wf(),
                    forall|j: int|
                        0 <= j < out@.len() ==> movement_matches(
                            *self,
                            #[trigger] out@[j].change,
                            out@[j].position,
                        ),
                decreases bottoms@.len() - i,
            {
                let entry = bottoms[i];
                let new_position = Position::with_layers(self.top, self.middle_solved, entry.0);
                out.push(
                    Movement {
                        position: new_position,
                        next_kind: MovementKind::new(kind.rotate_top(), true, false),
                        change: MovementChange::RotateBottom(entry.1),
                    },
                );
                i = i + 1;
            }
        }
        out
    }

    /// Return how many pieces are relatively well placed.
    pub fn solved_score(self) -> (r: u8)
        requires
            self.wf(),
        ensures
            r == spec_solved_score(self.top.pieces@) + (if self.middle_solved {
                1int
            } else {
                0int
            }) + spec_solved_score(self.bottom.pieces@),
            r <= 25,
    {
        let middle: u8 = if self.middle_solved {
            1
        } else {
            0
        };
        self.top.solved_score() + middle + self.bottom.solved_score()
    }

    /// Return a very dense representation of the position.
    ///
    /// Each top piece id is encoded in order, then each bottom piece id, the
    /// last one dropped as redundant; the lowest four bits hold the middle
    /// linkage.
    pub fn as_bytes(self) -> (r: u64)
        ensures
            r == spec_position_key(self),
    {
        let mut encoded: u64 = 0;

        // There are exactly 16 pieces with id in total, so this fills all 64
        // bits before the last id is dropped
        let mut i: usize = 0;
        while i < 12
            invariant
                0 <= i <= 12,
                encoded == spec_encode_ids(0, self.top.pieces@, i as int),
            decreases 12 - i,
        {
            let piece = self.top.pieces[i];
            match piece.id() {
                Some(id) => {
                    encoded = (encoded << 4u64) | (id as u64);
                },
                None => {
                },
            }
            i = i + 1;
        }
        let ghost top_encoded = encoded;
        let mut i: usize = 0;
        while i < 12
            invariant
                0 <= i <= 12,
                encoded == spec_encode_ids(top_encoded, self.bottom.pieces@, i as int),
            decreases 12 - i,
        {
            let piece = self.bottom.pieces[i];
            match piece.id() {
                Some(id) => {
                    encoded = (encoded << 4u64) | (id as u64);
                },
                None => {
                },
            }
            i = i + 1;
        }

        // Ditch the last 4 bits
        encoded = encoded >> 4u64;
        encoded = encoded << 4u64;

        // The last 4 bits represent the middle piece
        encoded = encoded | (if self.middle_solved {
            1u64
        } else {
            0u64
        });

        encoded
    }
}

/// The entries of the solved top layer.
pub open spec fn spec_solved_top() -> Seq<OuterPiece> {
    seq![
        OuterPiece::WhiteRedBlue1,
        OuterPiece::WhiteRedBlue2,
        OuterPiece::WhiteBlue,
        OuterPiece::WhiteBlueOrange1,
        OuterPiece::WhiteBlueOrange2,
        OuterPiece::WhiteOrange,
        OuterPiece::WhiteOrangeGreen1,
        OuterPiece::WhiteOrangeGreen2,
        OuterPiece::WhiteGreen,
        OuterPiece::WhiteGreenRed1,
        OuterPiece::WhiteGreenRed2,
        OuterPiece::WhiteRed,
    ]
}

/// The entries of the solved bottom layer.
pub open spec fn spec_solved_bottom() -> Seq<OuterPiece> {
    seq![
        OuterPiece::YellowOrange,
        OuterPiece::YellowOrangeBlue1,
        OuterPiece::YellowOrangeBlue2,
        OuterPiece::YellowBlue,
        OuterPiece::YellowBlueRed1,
        OuterPiece::YellowBlueRed2,
        OuterPiece::YellowRed,
        OuterPiece::YellowRedGreen1,
        OuterPiece::YellowRedGreen2,
        OuterPiece::YellowGreen,
        OuterPiece::YellowGreenOrange1,
        OuterPiece::YellowGreenOrange2,
    ]
}

/// `acc` extended with the ids of the first `m` entries of `s`.
pub open spec fn spec_encode_ids(acc: u64, s: Seq<OuterPiece>, m: int) -> u64
    decreases m,
{
    if m <= 0 {
        acc
    } else {
        let prev = spec_encode_ids(acc, s, m - 1);
        match s[m - 1].spec_id() {
            Some(id) => (prev << 4) | (id as u64),
            None => prev,
        }
    }
}

/// The dense dedup key of a configuration given as its raw parts: the piece
/// ids of both layers with the last one dropped, then the middle linkage in
/// the lowest bits.
pub open spec fn key_of(top: Seq<OuterPiece>, middle_solved: bool, bottom: Seq<OuterPiece>) -> u64 {
    let ids = spec_encode_ids(spec_encode_ids(0, top, 12), bottom, 12);
    ((ids >> 4) << 4) | (if middle_solved {
        1u64
    } else {
        0u64
    })
}

/// The dense dedup key of a position.
pub open spec fn spec_position_key(p: Position) -> u64 {
    key_of(p.top.pieces@, p.middle_solved, p.bottom.pieces@)
}

/// How many movements `kind` allows from the position `p`.
pub open spec fn spec_movement_count(p: Position, kind: MovementKind) -> int {
    (if kind.spec_rotate_top() {
        spec_layer_shifts(p.top.pieces@, 6).len() as int
    } else {
        0int
    }) + (if kind.spec_flip() {
        1int
    } else {
        0int
    }) + (if kind.spec_rotate_bottom() {
        spec_layer_shifts(p.bottom.pieces@, 6).len() as int
    } else {
        0int
    })
}

/// Exactly which movement stands at index `j` of the enumeration from `p`
/// under `kind`: first one rotation of the top layer per legal shift, then
/// the flip, then one rotation of the bottom layer per legal shift -- each
/// group only when `kind` allows it -- and each movement's `next_kind`
/// forbids repeating the move type just applied.
pub open spec fn spec_movement_at(p: Position, kind: MovementKind, j: int, m: Movement) -> bool {
    let nt = if kind.spec_rotate_top() {
        spec_layer_shifts(p.top.pieces@, 6).len() as int
    } else {
        0int
    };
    let nf = if kind.spec_flip() {
        1int
    } else {
        0int
    };
    if j < nt {
        let shift = spec_layer_shifts(p.top.pieces@, 6)[j];
        &&& m.change == MovementChange::RotateTop(shift)
        &&& m.position.top.pieces@ == spec_rotated(p.top.pieces@, shift as int)
        &&& m.position.bottom == p.bottom
        &&& m.position.middle_solved == p.middle_solved
        &&& m.next_kind.0 == kind_bits(false, true, kind.spec_rotate_bottom())
    } else if j < nt + nf {
        &&& m.change == MovementChange::Flip
        &&& m.position.top.pieces@ == p.bottom.pieces@.subrange(0, 6) + p.top.pieces@.subrange(
            6,
            12,
        )
        &&& m.position.bottom.pieces@ == p.top.pieces@.subrange(0, 6) + p.bottom.pieces@.subrange(
            6,
            12,
        )
        &&& m.position.middle_solved == !p.middle_solved
        &&& m.next_kind.0 == kind_bits(true, false, true)
    } else {
        let shift = spec_layer_shifts(p.bottom.pieces@, 6)[j - nt - nf];
        &&& m.change == MovementChange::RotateBottom(shift)
        &&& m.position.bottom.pieces@ == spec_rotated(p.bottom.pieces@, shift as int)
        &&& m.position.top == p.top
        &&& m.position.middle_solved == p.middle_solved
        &&& m.next_kind.0 == kind_bits(kind.spec_rotate_top(), true, false)
    }
}

/// Whether performing `change` on `from` yields exactly the position `to`,
/// leaving every untouched part of `from` as it was.
pub open spec fn movement_matches(from: Position, change: MovementChange, to: Position) -> bool {
    match change {
        MovementChange::Flip => {
            &&& to.top.pieces@ == from.bottom.pieces@.subrange(0, 6) + from.top.pieces@.subrange(
                6,
                12,
            )
            &&& to.bottom.pieces@ == from.top.pieces@.subrange(0, 6)
                + from.bottom.pieces@.subrange(6, 12)
            &&& to.middle_solved == !from.middle_solved
        },
        MovementChange::RotateTop(shift) => {
            &&& 1 <= shift < 12
            &&& to.top.pieces@ == spec_rotated(from.top.pieces@, shift as int)
            &&& to.bottom == from.bottom
            &&& to.middle_solved == from.middle_solved
        },
        MovementChange::RotateBottom(shift) => {
            &&& 1 <= shift < 12
            &&& to.bottom.pieces@ == spec_rotated(from.bottom.pieces@, shift as int)
            &&& to.top == from.top
            &&& to.middle_solved == from.middle_solved
        },
    }
}

/// The packed permission bits of a movement kind.
pub open spec fn kind_bits(rotate_top: bool, flip: bool, rotate_bottom: bool) -> u8 {
    ((if rotate_top {
        4int
    } else {
        0int
    }) + (if flip {
        2int
    } else {
        0int
    }) + (if rotate_bottom {
        1int
    } else {
        0int
    })) as u8
}

impl MovementKind {
    /// The kind allowing every move.
    pub fn all() -> (r: MovementKind)
        ensures
            r.0 == 7,
            r.spec_rotate_top(),
            r.spec_flip(),
            r.spec_rotate_bottom(),
    {
        MovementKind::new(true, true, true)
    }

    /// Pack the three move permissions into a kind.
    pub fn new(rotate_top: bool, flip: bool, rotate_bottom: bool) -> (r: Self)
        ensures
            r.spec_rotate_top() == rotate_top,
            r.spec_flip() == flip,
            r.spec_rotate_bottom() == rotate_bottom,
            r.0 == kind_bits(rotate_top, flip, rotate_bottom),
    {
        let rt: u8 = if rotate_top {
            4
        } else {
            0
        };
        let f: u8 = if flip {
            2
        } else {
            0
        };
        let rb: u8 = if rotate_bottom {
            1
        } else {
            0
        };
        let bits = rt + f + rb;
        proof {
            assert((bits & 0b100 != 0) == rotate_top && (bits & 0b10 != 0) == flip && (bits & 0b1
                != 0) == rotate_bottom) by (bit_vector)
                requires
                    bits == (if rotate_top {
                        4u8
                    } else {
                        0u8
                    }) + (if flip {
                        2u8
                    } else {
                        0u8
                    }) + (if rotate_bottom {
                        1u8
                    } else {
                        0u8
                    }),
            ;
        }
        MovementKind(bits)
    }

    /// Whether rotating the top layer is allowed.
    pub open spec fn spec_rotate_top(self) -> bool {
        self.0 & 0b100 != 0
    }

    /// Whether flipping is allowed.
    pub open spec fn spec_flip(self) -> bool {
        self.0 & 0b10 != 0
    }

    /// Whether rotating the bottom layer is allowed.
    pub open spec fn spec_rotate_bottom(self) -> bool {
        self.0 & 0b1 != 0
    }

    /// Whether rotating the top layer is allowed.
    pub fn rotate_top(self) -> (r: bool)
        ensures
            r == self.spec_rotate_top(),
    {
        self.0 & 0b100 != 0
    }

    /// Whether flipping is allowed.
    pub fn flip(self) -> (r: bool)
        ensures
            r == self.spec_flip(),
    {
        self.0 & 0b10 != 0
    }

    /// Whether rotating the bottom layer is allowed.
    pub fn rotate_bottom(self) -> (r: bool)
        ensures
            r == self.spec_rotate_bottom(),
    {
        self.0 & 0b1 != 0
    }
}

impl MovementChange {
    /// The change undoing this one.
    pub open spec fn spec_inversed(self) -> MovementChange {
        match self {
            MovementChange::Flip => MovementChange::Flip,
            MovementChange::RotateTop(n) => MovementChange::RotateTop((12 - n) as u8),
            MovementChange::RotateBottom(n) => MovementChange::RotateBottom((12 - n) as u8),
        }
    }

    /// The change undoing this one: a flip undoes itself, and a rotation is
    /// undone by the complementary rotation.
    pub fn inversed(self) -> (r: Self)
        requires
            match self {
                MovementChange::Flip => true,
                MovementChange::RotateTop(n) => n <= 12,
                MovementChange::RotateBottom(n) => n <= 12,
            },
        ensures
            r == self.spec_inversed(),
    {
        match self {
            MovementChange::Flip => MovementChange::Flip,
            MovementChange::RotateTop(n) => MovementChange::RotateTop(12 - n),
            MovementChange::RotateBottom(n) => MovementChange::RotateBottom(12 - n),
        }
    }
}

} // verus!
