//! One layer of the half-slot model: twelve piece entries with a movable
//! half in front, and the layer's cached score.

use crate::outer_piece::OuterPiece;
use vstd::prelude::*;

verus! {

broadcast use vstd::array::group_array_axioms;

/// How many piece entries one layer holds.
pub const OUTER_LAYER_PIECES: usize = 12;

/// How many piece entries one half-layer holds.
const OUTER_LAYER_HALF_PIECES: usize = 6;

/// One layer: its twelve piece entries and its cached score.
#[derive(Debug, Clone, Copy, PartialEq, Eq)]
pub struct OuterLayer {
    /// The piece entries, movable half first.
    pub pieces: [OuterPiece; 12],
    /// Cached count of adjacent entries in solved order.
    pub solved_score: u8,
}

/// The piece entries of a layer rotated forward by `shift` entries.
pub open spec fn spec_rotated(s: Seq<OuterPiece>, shift: int) -> Seq<OuterPiece> {
    s.subrange(shift, 12) + s.subrange(0, shift)
}

/// How many of the first `m` piece entries are followed by their cyclic
/// successor.
pub open spec fn spec_score_upto(s: Seq<OuterPiece>, m: int) -> int
    decreases m,
{
    if m <= 1 {
        0
    } else {
        spec_score_upto(s, m - 1) + if s[m - 2].spec_is_followed_by(s[m - 1]) {
            1int
        } else {
            0int
        }
    }
}

/// The score of a layer: how many of its twelve adjacent entry pairs,
/// including the wrap-around pair, sit in solved order.
pub open spec fn spec_solved_score(s: Seq<OuterPiece>) -> int {
    spec_score_upto(s, 12) + if s[11].spec_is_followed_by(s[0]) {
        1int
    } else {
        0int
    }
}

/// The rotations of a layer reachable by one move, with their shifts: the
/// half turn first, then each legal smaller shift paired with its opposite.
pub open spec fn spec_layer_shifts(s: Seq<OuterPiece>, m: int) -> Seq<u8>
    decreases m,
{
    if m <= 1 {
        seq![6u8]
    } else {
        spec_layer_shifts(s, m - 1) + if s[m - 1].spec_can_split_before() && s[m
            + 5].spec_can_split_before() {
            seq![(m - 1) as u8, (m + 5) as u8]
        } else {
            Seq::empty()
        }
    }
}

impl OuterLayer {
    /// A layer is well formed when its halves begin at legal cut points and
    /// its cached score is the score of its entries.
    pub open spec fn wf(self) -> bool {
        &&& self.pieces@[0].spec_can_split_before()
        &&& self.pieces@[6].spec_can_split_before()
        &&& self.solved_score == spec_solved_score(self.pieces@)
        &&& 0 <= self.solved_score <= 12
    }

    /// Build a layer from its entries, computing its score.  Both halves
    /// must start at legal cut points: anything else is a caller bug.
    pub fn new(pieces: [OuterPiece; 12]) -> (r: Self)
        requires
            pieces@[0].spec_can_split_before(),
            pieces@[6].spec_can_split_before(),
        ensures
            r.wf(),
            r.pieces@ == pieces@,
    {
        let solved_score = Self::calculate_solved_score(&pieces);
        OuterLayer { pieces, solved_score }
    }

    /// Count how many adjacent entry pairs of the layer, including the
    /// wrap-around pair, sit in solved order.
    fn calculate_solved_score(pieces: &[OuterPiece; 12]) -> (r: u8)
        ensures
            r == spec_solved_score(pieces@),
            r <= 12,
    {
        let mut score: u8 = 0;
        let mut i: usize = 1;
        while i < 12
            invariant
                1 <= i <= 12,
                score == spec_score_upto(pieces@, i as int),
                score <= i - 1,
            decreases 12 - i,
        {
            if pieces[i - 1].is_followed_by(pieces[i]) {
                score = score + 1;
            }
            i = i + 1;
        }
        if pieces[11].is_followed_by(pieces[0]) {
            score = score + 1;
        }
        score
    }

    /// The layer rotated forward by `shift` entries.
    fn rotate(self, shift: usize) -> (r: Self)
        requires
            self.wf(),
            1 <= shift < 12,
            self.pieces@[shift as int].spec_can_split_before(),
            self.pieces@[((shift + 6) % 12) as int].spec_can_split_before(),
        ensures
            r.wf(),
            r.pieces@ == spec_rotated(self.pieces@, shift as int),
    {
        let mut new_pieces = [OuterPiece::Unknown; 12];
        let mut i: usize = 0;
        while i < 12 - shift
            invariant
                1 <= shift < 12,
                0 <= i <= 12 - shift,
                new_pieces@.len() == 12,
                forall|j: int| 0 <= j < i ==> new_pieces@[j] == self.pieces@[j + shift],
            decreases 12 - shift - i,
        {
            new_pieces[i] = self.pieces[i + shift];
            i = i + 1;
        }
        let mut k: usize = 0;
        while k < shift
            invariant
                1 <= shift < 12,
                0 <= k <= shift,
                new_pieces@.len() == 12,
                forall|j: int| 0 <= j < 12 - shift ==> new_pieces@[j] == self.pieces@[j + shift],
                forall|j: int| 0 <= j < k ==> new_pieces@[12 - shift + j] == self.pieces@[j],
            decreases shift - k,
        {
            new_pieces[12 - shift + k] = self.pieces[k];
            k = k + 1;
        }
        proof {
            assert(new_pieces@ =~= spec_rotated(self.pieces@, shift as int));
        }
        Self::new(new_pieces)
    }

    /// Every rotation of this layer reachable by one move, paired with its
    /// shift: the half turn first, then each legal smaller shift and its
    /// opposite.
    pub fn for_each_movement(self) -> (r: Vec<(OuterLayer, u8)>)
        requires
            self.wf(),
        ensures
            r@.len() == spec_layer_shifts(self.pieces@, 6).len(),
            forall|j: int|
                0 <= j < r@.len() ==> {
                    let e = #[trigger] r@[j];
                    &&& e.1 == spec_layer_shifts(self.pieces@, 6)[j]
                    &&& 1 <= e.1 < 12
                    &&& e.0.wf()
                    &&& e.0.pieces@ == spec_rotated(self.pieces@, e.1 as int)
                },
    {
        let mut out: Vec<(OuterLayer, u8)> = Vec::new();

        // Shift of 6 is always possible
        out.push((self.rotate(6), 6));

        let mut shift: usize = 1;
        while shift < 6
            invariant
                self.wf(),
                1 <= shift <= 6,
                out@.len() == spec_layer_shifts(self.pieces@, shift as int).len(),
                forall|j: int|
                    0 <= j < out@.len() ==> {
                        let e = #[trigger] out@[j];
                        &&& e.1 == spec_layer_shifts(self.pieces@, shift as int)[j]
                        &&& 1 <= e.1 < 12
                        &&& e.0.wf()
                        &&& e.0.pieces@ == spec_rotated(self.pieces@, e.1 as int)
                    },
            decreases 6 - shift,
        {
            let new_cut = shift + 6;

            if self.pieces[shift].can_split_before() && self.pieces[new_cut].can_split_before() {
                out.push((self.rotate(shift), shift as u8));
                out.push((self.rotate(new_cut), new_cut as u8));
            }
            shift = shift + 1;
        }
        out
    }

    /// Perform a flip with another layer: each keeps its fixed half and
    /// takes the other's movable half.
    pub fn flip(self, other: Self) -> (r: (Self, Self))
        requires
            self.wf(),
            other.wf(),
        ensures
            r.0.wf(),
            r.1.wf(),
            r.0.pieces@ == other.pieces@.subrange(0, 6) + self.pieces@.subrange(6, 12),
            r.1.pieces@ == self.pieces@.subrange(0, 6) + other.pieces@.subrange(6, 12),
    {
        let mut new_self_pieces = self.pieces;
        let mut new_other_pieces = other.pieces;

        // Movable pieces
        let mut i: usize = 0;
        while i < 6
            invariant
                0 <= i <= 6,
                new_self_pieces@.len() == 12,
                new_other_pieces@.len() == 12,
                forall|j: int| 0 <= j < i ==> new_self_pieces@[j] == other.pieces@[j],
                forall|j: int| i <= j < 12 ==> new_self_pieces@[j] == self.pieces@[j],
                forall|j: int| 0 <= j < i ==> new_other_pieces@[j] == self.pieces@[j],
                forall|j: int| i <= j < 12 ==> new_other_pieces@[j] == other.pieces@[j],
            decreases 6 - i,
        {
            new_self_pieces[i] = other.pieces[i];
            new_other_pieces[i] = self.pieces[i];
            i = i + 1;
        }
        proof {
            assert(new_self_pieces@ =~= other.pieces@.subrange(0, 6) + self.pieces@.subrange(
                6,
                12,
            ));
            assert(new_other_pieces@ =~= self.pieces@.subrange(0, 6) + other.pieces@.subrange(
                6,
                12,
            ));
        }
        (Self::new(new_self_pieces), Self::new(new_other_pieces))
    }

    /// Return how many entries are relatively well placed.
    pub fn solved_score(&self) -> (r: u8)
        requires
            self.wf(),
        ensures
            r == spec_solved_score(self.pieces@),
            r <= 12,
    {
        self.solved_score
    }

    /// The tags of the layer's entries, in order.
    pub fn as_bytes(self) -> (r: [u8; 12])
        ensures
            forall|j: int| 0 <= j < 12 ==> r@[j] == self.pieces@[j].spec_tag(),
    {
        let mut bytes = [0u8; 12];
        let mut i: usize = 0;
        while i < 12
            invariant
                0 <= i <= 12,
                bytes@.len() == 12,
                forall|j: int| 0 <= j < i ==> bytes@[j] == self.pieces@[j].spec_tag(),
            decreases 12 - i,
        {
            bytes[i] = self.pieces[i].tag();
            i = i + 1;
        }
        bytes
    }

    /// A readable form of the layer: the labels of the pieces of each half,
    /// separated by a bar.
    pub fn display(&self) -> String {
        let mut out = String::new();
        let mut i: usize = 0;
        let mut first = true;
        while i < 12
            decreases 12 - i,
        {
            if i == 6 {
                out.append("|");
                first = true;
            }
            if self.pieces[i].can_split_before() {
                if !first {
                    out.append(",");
                }
                out.append(self.pieces[i].label());
                first = false;
            }
            i = i + 1;
        }
        out
    }
}

} // verus!
