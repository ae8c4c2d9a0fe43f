//! One layer of the packed puzzle: a movable and a fixed half, each holding
//! exactly half of the layer's twelve slots.

use crate::packing::{
    extract_half, half_len, lemma_half_len_from_found, lemma_half_len_from_some, lemma_join_fits,
    lemma_join_parts, lemma_nib_low_all, lemma_nib_shr, lemma_rot_back, lemma_rot_fits,
    lemma_rot_slots, lemma_shr_fits, lemma_slot_sum_bounds, lemma_slot_sum_eq,
    lemma_slot_sum_mono, lemma_slot_sum_offset, lemma_split_recompose, low_mask, nib, rot,
    slot_sum,
};
use crate::piece::{pack_pieces, Piece};
use vstd::prelude::*;

verus! {

/// Half of a layer: a run of pieces occupying exactly six slots.
#[derive(Debug, Clone, Copy, PartialEq, Eq, Structural)]
pub struct HalfLayer {
    /// The packed piece tags, lowest piece in the lowest bits.
    pub pieces: u64,
    /// How many pieces the run holds (3 to 6).
    pub num_pieces: u8,
}

/// One layer of the puzzle, split at its legal boundary.
#[derive(Debug, Clone, Copy, PartialEq, Eq, Structural)]
pub struct Layer {
    /// The "flippable" half of the layer.
    pub first: HalfLayer,
    /// The "fixed" half of the layer.
    pub second: HalfLayer,
}

impl HalfLayer {
    /// A half-layer is well formed when its pieces fit its piece count and
    /// occupy exactly six slots.
    pub open spec fn wf(self) -> bool {
        &&& 3 <= self.num_pieces <= 6
        &&& self.pieces < (1u64 << ((4 * self.num_pieces) as u64))
        &&& slot_sum(self.pieces, self.num_pieces as int) == 6
    }
}

impl Layer {
    /// Total piece count of the layer.
    pub open spec fn n(self) -> int {
        self.first.num_pieces + self.second.num_pieces
    }

    /// The layer as one packed pattern: the first half above the second.
    pub open spec fn bits(self) -> u64 {
        (self.first.pieces << ((4 * self.second.num_pieces) as u64)) | self.second.pieces
    }

    /// A layer is well formed when both halves are.
    pub open spec fn wf(self) -> bool {
        self.first.wf() && self.second.wf()
    }
}

/// A full configuration can be split when the boundary search succeeds three
/// times from the low end and a final six-slot half remains on top.
pub open spec fn splittable(bits: u64) -> bool {
    let o1 = half_len(bits, 6);
    if o1 is None {
        false
    } else {
        let k1 = o1.unwrap();
        let r1 = bits >> ((4 * k1) as u64);
        let o2 = half_len(r1, 6);
        if o2 is None {
            false
        } else {
            let k2 = o2.unwrap();
            let r2 = r1 >> ((4 * k2) as u64);
            let o3 = half_len(r2, 6);
            if o3 is None {
                false
            } else {
                let k3 = o3.unwrap();
                let r3 = r2 >> ((4 * k3) as u64);
                slot_sum(r3, 16 - k1 - k2 - k3) == 6
            }
        }
    }
}

impl Layer {
    /// The two layers obtained by splitting a full configuration.
    pub open spec fn spec_split(bits: u64) -> (Layer, Layer)
        recommends
            splittable(bits),
    {
        let k1 = half_len(bits, 6).unwrap();
        let p1 = bits & low_mask(k1 as u64);
        let r1 = bits >> ((4 * k1) as u64);
        let k2 = half_len(r1, 6).unwrap();
        let p2 = r1 & low_mask(k2 as u64);
        let r2 = r1 >> ((4 * k2) as u64);
        let k3 = half_len(r2, 6).unwrap();
        let p3 = r2 & low_mask(k3 as u64);
        let r3 = r2 >> ((4 * k3) as u64);
        (
            Layer {
                first: HalfLayer { pieces: r3, num_pieces: (16 - k1 - k2 - k3) as u8 },
                second: HalfLayer { pieces: p3, num_pieces: k3 as u8 },
            },
            Layer {
                first: HalfLayer { pieces: p2, num_pieces: k2 as u8 },
                second: HalfLayer { pieces: p1, num_pieces: k1 as u8 },
            },
        )
    }

    /// The packed pattern obtained by joining two layers, top above bottom.
    pub open spec fn spec_join(top: Layer, bottom: Layer) -> u64 {
        ((((top.bits() << ((4 * bottom.first.num_pieces) as u64)) | bottom.first.pieces) << ((4
            * bottom.second.num_pieces) as u64)) | bottom.second.pieces)
    }

    /// Split a full configuration into its top and bottom layer.
    ///
    /// The join of the returned layers is the original pattern, so `split`
    /// and `join` are exact inverses on splittable configurations.
    pub fn split(pieces: u64) -> (r: (Layer, Layer))
        requires
            splittable(pieces),
        ensures
            r == Self::spec_split(pieces),
            r.0.wf(),
            r.1.wf(),
            Self::spec_join(r.0, r.1) == pieces,
            r.0.n() + r.1.n() == 16,
    {
        let (p1, k1, r1) = extract_half(pieces, 6).unwrap();
        let (p2, k2, r2) = extract_half(r1, 6).unwrap();
        let (p3, k3, r3) = extract_half(r2, 6).unwrap();
        proof {
            lemma_slot_sum_bounds(pieces, k1 as int);
            lemma_slot_sum_bounds(r1, k2 as int);
            lemma_slot_sum_bounds(r2, k3 as int);
            lemma_slot_sum_bounds(r3, 16 - k1 - k2 - k3);
            lemma_split_recompose(pieces, k1 as u64);
            lemma_split_recompose(r1, k2 as u64);
            lemma_split_recompose(r2, k3 as u64);
            assert(r3 < (1u64 << ((4 * (16 - k1 - k2 - k3)) as u64))) by (bit_vector)
                requires
                    r3 == (pieces >> ((4 * k1) as u64) >> ((4 * k2) as u64)) >> ((4 * k3) as u64),
                    1 <= k1 <= 6,
                    1 <= k2 <= 6,
                    1 <= k3 <= 6,
                    k1 + k2 + k3 <= 13,
            ;
        }
        (
            Layer {
                first: HalfLayer { pieces: r3, num_pieces: 16 - k3 as u8 - k2 as u8 - k1 as u8 },
                second: HalfLayer { pieces: p3, num_pieces: k3 as u8 },
            },
            Layer {
                first: HalfLayer { pieces: p2, num_pieces: k2 as u8 },
                second: HalfLayer { pieces: p1, num_pieces: k1 as u8 },
            },
        )
    }

    /// Perform a flip change, by exchanging the first half-layer of each
    /// part.
    pub fn flip(top: Self, bottom: Self) -> (r: (Self, Self))
        ensures
            r.0 == (Layer { first: bottom.first, second: top.second }),
            r.1 == (Layer { first: top.first, second: bottom.second }),
            top.wf() && bottom.wf() ==> r.0.wf() && r.1.wf(),
    {
        (
            Layer { first: bottom.first, second: top.second },
            Layer { first: top.first, second: bottom.second },
        )
    }

    /// Join two layers into a single bit pattern.  It's assumed that the top
    /// and bottom parts compose a valid configuration.
    pub fn join(top: Self, bottom: Self) -> (bits: u64)
        requires
            top.wf(),
            bottom.wf(),
        ensures
            bits == Self::spec_join(top, bottom),
    {
        let mut bits = top.first.pieces;
        bits = bits << (4 * top.second.num_pieces as u32);
        bits = bits | top.second.pieces;
        bits = bits << (4 * bottom.first.num_pieces as u32);
        bits = bits | bottom.first.pieces;
        bits = bits << (4 * bottom.second.num_pieces as u32);
        bits = bits | bottom.second.pieces;
        bits
    }

    /// Whether rotating this layer by `k` steps leaves a legal boundary for
    /// a fresh fixed half.
    pub open spec fn rot_valid(self, k: int) -> bool {
        half_len(rot(self.bits(), self.n() as u64, k), 6) is Some
    }

    /// The layer obtained by rotating this one `k` steps, re-split at the
    /// fresh boundary.
    pub open spec fn rot_layer(self, k: int) -> Layer
        recommends
            self.wf(),
            self.rot_valid(k),
    {
        let b = rot(self.bits(), self.n() as u64, k);
        let kk = half_len(b, 6).unwrap();
        Layer {
            first: HalfLayer { pieces: b >> ((4 * kk) as u64), num_pieces: (self.n() - kk) as u8 },
            second: HalfLayer { pieces: b & low_mask(kk as u64), num_pieces: kk as u8 },
        }
    }

    /// The rotations of this layer with shift below `m`: the identity first,
    /// then every valid larger shift in increasing order.
    pub open spec fn spec_rotations_upto(self, m: int) -> Seq<(Layer, u8)>
        decreases m,
    {
        if m <= 1 {
            seq![(self, 0u8)]
        } else {
            self.spec_rotations_upto(m - 1) + if self.rot_valid(m - 1) {
                seq![(self.rot_layer(m - 1), (m - 1) as u8)]
            } else {
                Seq::empty()
            }
        }
    }

    /// All valid rotations of this layer, identity first.
    pub open spec fn spec_rotations(self) -> Seq<(Layer, u8)> {
        self.spec_rotations_upto(self.n())
    }

    /// Generate all valid rotations of this layer and store them in the
    /// given vec.  The identity rotation always comes first.
    pub fn rotations(self, rotations: &mut Vec<(Layer, u8)>)
        requires
            self.wf(),
        ensures
            final(rotations)@ == self.spec_rotations(),
            final(rotations)@.len() >= 1,
            final(rotations)@[0] == (self, 0u8),
    {
        rotations.clear();

        proof {
            lemma_layer_boundary(self);
        }

        // Represent the layer as an `u64`, 4 bits per piece:
        // 0 ... 0 | first | second
        let mut bits = (self.first.pieces << (4 * self.second.num_pieces as u32))
            | self.second.pieces;

        // Count how many bits away from the right the left-most piece is
        let num_pieces = self.first.num_pieces + self.second.num_pieces;
        let left_most_piece_shift = 4 * num_pieces as u32 - 4;

        // Identity is always possible
        rotations.push((self, 0));

        // Generate all other possible rotations
        let ghost bits0 = self.bits();
        let mut i: u8 = 1;
        while i < num_pieces
            invariant
                self.wf(),
                num_pieces == self.n(),
                6 <= num_pieces <= 12,
                left_most_piece_shift == 4 * num_pieces - 4,
                1 <= i <= num_pieces,
                bits0 == self.bits(),
                bits0 < (1u64 << ((4 * num_pieces) as u64)),
                bits == rot(bits0, num_pieces as u64, i - 1),
                slot_sum(bits0, num_pieces as int) == 12,
                rotations@ == self.spec_rotations_upto(i as int),
            decreases num_pieces - i,
        {
            proof {
                lemma_rot_fits(bits0, num_pieces as u64, i - 1);
                lemma_rot_fits(bits0, num_pieces as u64, i as int);
                lemma_rot_slots(bits0, num_pieces as u64, i as int);
            }
            // Take the right-most piece and push it into the left
            let right_most_piece = bits & 0xF;
            bits = (bits >> 4) | (right_most_piece << left_most_piece_shift);
            proof {
                assert(bits == rot(bits0, num_pieces as u64, i as int));
            }

            // Split the bit pattern into each half-layer
            match extract_half(bits, 6) {
                None => {
                    // This is not a valid rotation, since no valid second
                    // half-layer can be extracted
                    proof {
                        assert(rotations@ =~= self.spec_rotations_upto(i + 1));
                    }
                },
                Some((new_second_pieces, k, new_first_pieces)) => {
                    proof {
                        lemma_slot_sum_bounds(new_second_pieces, k as int);
                        lemma_shr_fits(bits, num_pieces as u64, k as u64);
                        assert forall|ii: u64| ii < num_pieces - k as int implies nib(
                            new_first_pieces,
                            ii,
                        ) == nib(bits, (ii + k as int) as u64) by {
                            lemma_nib_shr(bits, k as u64, ii);
                        }
                        // the remaining pieces of the rotated pattern occupy
                        // the six slots the fixed half does not
                        lemma_slot_sum_offset(
                            new_first_pieces,
                            bits,
                            k as int,
                            num_pieces - k as int,
                        );
                        lemma_slot_sum_bounds(new_first_pieces, num_pieces - k as int);
                    }
                    let new_layer = Layer {
                        first: HalfLayer {
                            pieces: new_first_pieces,
                            num_pieces: num_pieces - k as u8,
                        },
                        second: HalfLayer { pieces: new_second_pieces, num_pieces: k as u8 },
                    };

                    rotations.push((new_layer, i));
                    proof {
                        assert(new_layer == self.rot_layer(i as int));
                        assert(rotations@ =~= self.spec_rotations_upto(i + 1));
                    }
                },
            }
            i = i + 1;
        }
        proof {
            lemma_rotations_upto_first(self, self.n());
        }
    }
}

impl Layer {
    /// Build a layer from an explicit piece sequence, splitting it at the
    /// boundary closest to its low end.
    pub fn from_pieces(pieces: &Vec<Piece>) -> (r: Layer)
        requires
            6 <= pieces@.len() <= 10,
            slot_sum(pack_pieces(pieces@), pieces@.len() as int) == 12,
            half_len(pack_pieces(pieces@), 6) is Some,
        ensures
            r.wf(),
            r.n() == pieces@.len(),
            r.bits() == pack_pieces(pieces@),
    {
        let ghost n = pieces@.len() as int;
        let mut bits: u64 = 0;
        let mut i: usize = 0;
        proof {
            assert(0u64 < (1u64 << 0u64)) by (bit_vector);
        }
        while i < pieces.len()
            invariant
                pieces@.len() <= 10,
                0 <= i <= pieces@.len(),
                bits == pack_pieces(pieces@.take(i as int)),
                bits < (1u64 << ((4 * i) as u64)),
            decreases pieces@.len() - i,
        {
            let tag = pieces[i].as_bits();
            proof {
                assert(pieces@.take(i + 1).drop_last() =~= pieces@.take(i as int));
            }
            let new_bits = (bits << 4u64) | tag;
            proof {
                assert((bits << 4u64) | tag < (1u64 << ((4 * ((i as u64) + 1)) as u64)))
                    by (bit_vector)
                    requires
                        i < 15usize,
                        tag < 16u64,
                        bits < (1u64 << ((4 * (i as u64)) as u64)),
                ;
            }
            bits = new_bits;
            i = i + 1;
        }
        proof {
            assert(pieces@.take(pieces@.len() as int) =~= pieces@);
        }

        let (second_pieces, k, first_pieces) = extract_half(bits, 6).unwrap();
        proof {
            lemma_slot_sum_bounds(second_pieces, k as int);
            lemma_shr_fits(bits, pieces@.len() as u64, k as u64);
            assert forall|ii: u64| ii < n - k as int implies nib(first_pieces, ii) == nib(
                bits,
                (ii + k as int) as u64,
            ) by {
                lemma_nib_shr(bits, k as u64, ii);
            }
            lemma_slot_sum_offset(first_pieces, bits, k as int, n - k as int);
            lemma_slot_sum_bounds(first_pieces, n - k as int);
            lemma_split_recompose(bits, k as u64);
        }
        let num = pieces.len();
        Layer {
            first: HalfLayer { pieces: first_pieces, num_pieces: (num - k as usize) as u8 },
            second: HalfLayer { pieces: second_pieces, num_pieces: k as u8 },
        }
    }
}

/// The pair of layers after a flip: each keeps its fixed half and takes the
/// other's movable half.
pub open spec fn flip_spec(top: Layer, bottom: Layer) -> (Layer, Layer) {
    (
        Layer { first: bottom.first, second: top.second },
        Layer { first: top.first, second: bottom.second },
    )
}

/// A valid rotation of a well-formed layer is again a well-formed layer of
/// the same size, holding the rotated pattern.
pub proof fn lemma_rot_layer_wf(l: Layer, k: int)
    requires
        l.wf(),
        0 <= k,
        l.rot_valid(k),
    ensures
        l.rot_layer(k).wf(),
        l.rot_layer(k).n() == l.n(),
        l.rot_layer(k).bits() == rot(l.bits(), l.n() as u64, k),
        k == 0 ==> l.rot_layer(k) == l,
{
    lemma_layer_boundary(l);
    let n = l.n() as u64;
    let b = rot(l.bits(), n, k);
    lemma_rot_fits(l.bits(), n, k);
    lemma_rot_slots(l.bits(), n, k);
    let kk = half_len(b, 6).unwrap();
    lemma_half_len_from_some(b, 6, 1, kk);
    lemma_slot_sum_bounds(b, kk);
    let p = b & low_mask(kk as u64);
    let r = b >> ((4 * kk) as u64);
    lemma_nib_low_all(b, kk as u64);
    lemma_slot_sum_eq(p, b, kk);
    lemma_slot_sum_bounds(p, kk);
    lemma_shr_fits(b, n, kk as u64);
    assert forall|ii: u64| ii < l.n() - kk implies nib(r, ii) == nib(b, (ii + kk) as u64) by {
        lemma_nib_shr(b, kk as u64, ii);
    }
    lemma_slot_sum_offset(r, b, kk, l.n() - kk);
    lemma_slot_sum_bounds(r, l.n() - kk);
    lemma_split_recompose(b, kk as u64);
    if k == 0 {
        assert(b == l.bits());
    }
}

/// Every entry of a layer's rotation list is a well-formed rotation of the
/// layer, tagged with its shift.
pub proof fn lemma_rotations_props(l: Layer, m: int)
    requires
        l.wf(),
        1 <= m <= l.n(),
    ensures
        forall|j: int|
            0 <= j < l.spec_rotations_upto(m).len() ==> {
                let e = #[trigger] l.spec_rotations_upto(m)[j];
                &&& e.0.wf()
                &&& e.0.n() == l.n()
                &&& 0 <= e.1 < m
                &&& l.rot_valid(e.1 as int)
                &&& e.0 == l.rot_layer(e.1 as int)
            },
    decreases m,
{
    lemma_layer_boundary(l);
    if m == 1 {
        assert(l.rot_valid(0));
        lemma_rot_layer_wf(l, 0);
        assert(l.spec_rotations_upto(1) =~= seq![(l, 0u8)]);
    } else {
        lemma_rotations_props(l, m - 1);
        if l.rot_valid(m - 1) {
            lemma_rot_layer_wf(l, m - 1);
        }
        let prev = l.spec_rotations_upto(m - 1);
        let cur = l.spec_rotations_upto(m);
        assert forall|j: int| 0 <= j < cur.len() implies {
            let e = #[trigger] cur[j];
            &&& e.0.wf()
            &&& e.0.n() == l.n()
            &&& 0 <= e.1 < m
            &&& l.rot_valid(e.1 as int)
            &&& e.0 == l.rot_layer(e.1 as int)
        } by {
            if j < prev.len() {
                assert(cur[j] == prev[j]);
            } else {
                assert(cur[j] == (l.rot_layer(m - 1), (m - 1) as u8));
            }
        }
    }
}

/// Law: splitting a splittable configuration and joining the parts restores
/// the original configuration.
pub proof fn lemma_join_split(bits: u64)
    requires
        splittable(bits),
    ensures
        Layer::spec_join(Layer::spec_split(bits).0, Layer::spec_split(bits).1) == bits,
{
    let k1 = half_len(bits, 6).unwrap();
    let r1 = bits >> ((4 * k1) as u64);
    let k2 = half_len(r1, 6).unwrap();
    let r2 = r1 >> ((4 * k2) as u64);
    let k3 = half_len(r2, 6).unwrap();
    lemma_half_len_from_some(bits, 6, 1, k1);
    lemma_half_len_from_some(r1, 6, 1, k2);
    lemma_half_len_from_some(r2, 6, 1, k3);
    lemma_split_recompose(bits, k1 as u64);
    lemma_split_recompose(r1, k2 as u64);
    lemma_split_recompose(r2, k3 as u64);
}

/// Law: the rotation list of a well-formed layer always has the identity
/// shift as its first element, and rotating any listed layer further by the
/// complementary shift restores the original pattern.
pub proof fn lemma_rotation_round_trip(l: Layer, k: int)
    requires
        l.wf(),
        0 <= k < l.n(),
        l.rot_valid(k),
    ensures
        l.spec_rotations()[0] == (l, 0u8),
        rot(l.rot_layer(k).bits(), l.n() as u64, l.n() - k) == l.bits(),
{
    lemma_rotations_upto_first(l, l.n());
    lemma_layer_boundary(l);
    lemma_rot_layer_wf(l, k);
    lemma_rot_back(l.bits(), l.n() as u64, k as u64);
}

/// Every rotation list starts with the identity rotation.
pub proof fn lemma_rotations_upto_first(l: Layer, m: int)
    requires
        1 <= m,
    ensures
        l.spec_rotations_upto(m).len() >= 1,
        l.spec_rotations_upto(m)[0] == (l, 0u8),
    decreases m,
{
    if m > 1 {
        lemma_rotations_upto_first(l, m - 1);
    }
}

/// A well-formed layer's packed pattern has its boundary exactly where the
/// layer says: searching the pattern finds the fixed half, shifting recovers
/// the movable half, and the whole pattern occupies twelve slots.
pub proof fn lemma_layer_boundary(l: Layer)
    requires
        l.wf(),
    ensures
        l.bits() < (1u64 << ((4 * l.n()) as u64)),
        half_len(l.bits(), 6) == Some(l.second.num_pieces as int),
        l.bits() >> ((4 * l.second.num_pieces) as u64) == l.first.pieces,
        l.bits() & low_mask(l.second.num_pieces as u64) == l.second.pieces,
        slot_sum(l.bits(), l.n()) == 12,
{
    let k = l.second.num_pieces as u64;
    let f = l.first.num_pieces as u64;
    let hi = l.first.pieces;
    let lo = l.second.pieces;
    let b = l.bits();
    lemma_join_fits(hi, lo, k, f);
    assert(hi < (1u64 << ((4 * (16 - k)) as u64))) by (bit_vector)
        requires
            hi < (1u64 << ((4 * f) as u64)),
            f <= 6,
            3 <= k <= 6,
    ;
    lemma_join_parts(hi, lo, k);
    lemma_slot_sum_eq(b, lo, k as int);
    assert forall|j: int| 1 <= j < k implies slot_sum(b, j) < 6 by {
        lemma_slot_sum_mono(lo, j, k as int);
    }
    lemma_half_len_from_found(b, 6, 1, k as int);
    lemma_slot_sum_offset(hi, b, k as int, f as int);
}

/// Law: joining two well-formed complementary layers yields a splittable
/// configuration, and splitting it gives the same two layers back.
pub proof fn lemma_split_join(top: Layer, bottom: Layer)
    requires
        top.wf(),
        bottom.wf(),
        top.n() + bottom.n() == 16,
    ensures
        splittable(Layer::spec_join(top, bottom)),
        Layer::spec_split(Layer::spec_join(top, bottom)) == (top, bottom),
{
    let k1 = bottom.second.num_pieces as u64;
    let k2 = bottom.first.num_pieces as u64;
    let p1 = bottom.second.pieces;
    let p2 = bottom.first.pieces;
    let tb = top.bits();
    let y = (tb << ((4 * k2) as u64)) | p2;
    let j = (y << ((4 * k1) as u64)) | p1;
    assert(j == Layer::spec_join(top, bottom));
    lemma_layer_boundary(top);
    lemma_layer_boundary(bottom);

    // the middle pattern: top layer above the bottom's movable half
    assert(tb < (1u64 << ((4 * (16 - k2 - k1)) as u64)));
    lemma_join_fits(tb, p2, k2, (16 - k2 - k1) as u64);
    assert(tb < (1u64 << ((4 * (16 - k2)) as u64))) by (bit_vector)
        requires
            tb < (1u64 << ((4 * (16 - k2 - k1)) as u64)),
            3 <= k1 <= 6,
            3 <= k2 <= 6,
    ;
    lemma_join_parts(tb, p2, k2);

    // the full pattern: the middle pattern above the bottom's fixed half
    assert(y < (1u64 << ((4 * (16 - k1)) as u64)));
    lemma_join_parts(y, p1, k1);

    // the lowest boundary is the bottom layer's fixed half
    lemma_slot_sum_eq(j, p1, k1 as int);
    assert forall|jj: int| 1 <= jj < k1 implies slot_sum(j, jj) < 6 by {
        lemma_slot_sum_mono(p1, jj, k1 as int);
    }
    lemma_half_len_from_found(j, 6, 1, k1 as int);

    // the next boundary is the bottom layer's movable half
    lemma_slot_sum_eq(y, p2, k2 as int);
    assert forall|jj: int| 1 <= jj < k2 implies slot_sum(y, jj) < 6 by {
        lemma_slot_sum_mono(p2, jj, k2 as int);
    }
    lemma_half_len_from_found(y, 6, 1, k2 as int);

    // the last boundary is the top layer's own fixed half, and what remains
    // above it is the top layer's movable half
    let k3 = top.second.num_pieces as u64;
    assert(16 - k1 - k2 - k3 == top.first.num_pieces);
    assert(slot_sum(tb >> ((4 * k3) as u64), 16 - k1 - k2 - k3) == 6);
    assert(splittable(j));
    assert(Layer::spec_split(j) == (top, bottom));
}


impl Layer {
    /// A readable form of the layer: the pieces of each half, space
    /// separated, with a bar between the halves.
    pub fn display(&self) -> String
        requires
            self.wf(),
    {
        let mut out = String::new();
        let first = half_display(self.first.pieces, self.first.num_pieces as u32);
        out.append(&first);
        out.append(" | ");
        let second = half_display(self.second.pieces, self.second.num_pieces as u32);
        out.append(&second);
        out
    }
}

/// The pieces of one packed half-layer, space separated, highest first.
fn half_display(pieces: u64, num_pieces: u32) -> (r: String)
    requires
        num_pieces <= 15,
{
    let mut out = String::new();
    let mut n: u32 = 0;
    while n < num_pieces
        invariant
            num_pieces <= 15,
            0 <= n <= num_pieces,
        decreases num_pieces - n,
    {
        if n > 0 {
            out.append(" ");
        }
        let shift = 4 * (num_pieces - n - 1);
        let tag = (pieces >> shift) & 0xF;
        proof {
            assert((pieces >> shift) & 0xF < 16) by (bit_vector);
        }
        out.append(Piece::from_bits(tag).label());
        n = n + 1;
    }
    out
}

} // verus!
