//! Scoring a packed layer: counting adjacent pieces that already sit in
//! their solved cyclic order.

use crate::packing::{
    extract_half, half_len, lemma_rot_fits, lemma_rot_low_nibs, lemma_slot_sum_bounds, low_mask,
    nib, rot, LAST_PIECE_MASK,
};
use vstd::prelude::*;

verus! {

/// One layer viewed as a plain cyclic run of pieces, ready to be scored.
#[derive(Debug, Clone, Copy, PartialEq, Eq, Structural)]
pub struct ScorableLayer {
    /// The packed piece tags, lowest piece in the lowest bits.
    pub pieces: u64,
    /// How many pieces the run holds.
    pub num_pieces: u32,
}

/// The piece tag that follows `x` in the solved cyclic order: same layer
/// color, next sequence number.
pub open spec fn succ_tag(x: u64) -> int {
    (x + 2) % 16
}

/// The index of the piece above `j` in an `n`-piece cyclic run.
pub open spec fn next_idx(n: int, j: int) -> int {
    if j + 1 == n {
        0
    } else {
        j + 1
    }
}

/// Whether piece `j` of the run is the cyclic successor of the piece above
/// it, i.e. the two sit in solved relative order.
pub open spec fn pair_solved(bits: u64, n: int, j: int) -> bool {
    nib(bits, j as u64) == succ_tag(nib(bits, next_idx(n, j) as u64))
}

/// How many of the lowest `m` pieces are the cyclic successor of the piece
/// above them.
pub open spec fn spec_score_upto(bits: u64, n: int, m: int) -> int
    decreases m,
{
    if m <= 0 {
        0
    } else {
        spec_score_upto(bits, n, m - 1) + if pair_solved(bits, n, m - 1) {
            1int
        } else {
            0int
        }
    }
}

/// The score of a layer: how many of its adjacent piece pairs already sit in
/// solved cyclic order.
pub open spec fn spec_score(bits: u64, n: int) -> int {
    spec_score_upto(bits, n, n)
}

/// A full configuration can be scored when a twelve-slot boundary splits it
/// into two layers.
pub open spec fn scorable(bits: u64) -> bool {
    half_len(bits, 12) is Some
}

impl ScorableLayer {
    /// A scorable layer holds at least two pieces and fits its piece count.
    pub open spec fn wf(self) -> bool {
        &&& 2 <= self.num_pieces <= 15
        &&& self.pieces < (1u64 << ((4 * self.num_pieces) as u64))
    }

    /// Split a full configuration into its two scorable layers.
    pub fn split(pieces: u64) -> (r: (Self, Self))
        requires
            scorable(pieces),
        ensures
            r.0.wf(),
            r.1.wf(),
            r.1.num_pieces == half_len(pieces, 12).unwrap(),
            r.1.pieces == pieces & low_mask(r.1.num_pieces as u64),
            r.0.num_pieces == 16 - r.1.num_pieces,
            r.0.pieces == pieces >> ((4 * r.1.num_pieces) as u64),
    {
        let (bottom_pieces, bottom_num_pieces, top_pieces) = extract_half(pieces, 12).unwrap();
        proof {
            lemma_slot_sum_bounds(bottom_pieces, bottom_num_pieces as int);
            assert(top_pieces < (1u64 << ((4 * (16 - bottom_num_pieces as u64)) as u64)))
                by (bit_vector)
                requires
                    top_pieces == pieces >> ((4 * bottom_num_pieces as u64) as u64),
                    6 <= bottom_num_pieces <= 12u32,
            ;
        }
        (
            ScorableLayer { pieces: top_pieces, num_pieces: 16 - bottom_num_pieces },
            ScorableLayer { pieces: bottom_pieces, num_pieces: bottom_num_pieces },
        )
    }

    /// Count how many adjacent piece pairs of this layer sit in their solved
    /// cyclic order.
    pub fn score(self) -> (r: u8)
        requires
            self.wf(),
        ensures
            r == spec_score(self.pieces, self.num_pieces as int),
            r <= self.num_pieces,
    {
        let ghost b0 = self.pieces;
        let ghost n = self.num_pieces as int;
        let mut score: u8 = 0;
        let mut bits = self.pieces;
        let left_most_piece_shift = 4 * self.num_pieces - 4;

        let mut t: u32 = 0;
        while t < self.num_pieces
            invariant
                self.wf(),
                b0 == self.pieces,
                n == self.num_pieces,
                left_most_piece_shift == 4 * n - 4,
                0 <= t <= n,
                bits == rot(b0, self.num_pieces as u64, t as int),
                score == spec_score_upto(b0, n, t as int),
                score <= t,
            decreases n - t,
        {
            proof {
                lemma_rot_fits(b0, self.num_pieces as u64, t as int);
                lemma_rot_low_nibs(b0, self.num_pieces as u64, t as u64);
            }
            let last_piece = bits & LAST_PIECE_MASK;
            let second_last_piece = (bits >> 4) & LAST_PIECE_MASK;
            proof {
                assert(last_piece == nib(bits, 0) && second_last_piece == nib(bits, 1)
                    && second_last_piece < 16) by (bit_vector)
                    requires
                        last_piece == bits & 0xF,
                        second_last_piece == (bits >> 4) & 0xF,
                ;
                assert((((second_last_piece + 2) as u64) & 0xF) == (second_last_piece + 2) % 16)
                    by (bit_vector)
                    requires
                        second_last_piece < 16u64,
                ;
            }

            // Each piece has 4 bits, the 3 MSB represent a circular sequence
            // number of a given external color (white/yellow).
            let successor_second_last_piece = (second_last_piece + 2) & LAST_PIECE_MASK;
            if last_piece == successor_second_last_piece {
                score = score + 1;
            }

            bits = (bits >> 4) | (last_piece << left_most_piece_shift);
            proof {
                assert(bits == rot(b0, self.num_pieces as u64, t + 1));
            }
            t = t + 1;
        }
        score
    }
}

} // verus!
