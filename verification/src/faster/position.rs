//! A full packed configuration of the puzzle and the moves leading out of
//! it.

use crate::faster::rotatable_layer::{
    flip_spec, lemma_rotations_props, lemma_spec_split_props, lemma_split_join, splittable,
    RotatableLayer,
};
use crate::packing::{
    half_len, lemma_half_len_from_found, lemma_nib_shr, lemma_slot_sum_mono,
    lemma_slot_sum_offset, nib, slot_sum,
};
use crate::piece::{pack_pieces, Piece};
use crate::scorable_layer::{scorable, spec_score, ScorableLayer};
use vstd::prelude::*;

verus! {

/// A full 16-piece configuration, packed as 4-bit tags inside a `u64`.
#[derive(Debug, Clone, Copy, PartialEq, Eq, Structural)]
pub struct Position {
    /// The packed piece tags: the first piece of the top layer in the
    /// highest four bits, the last piece of the bottom layer in the lowest.
    pub pieces: u64,
}

/// One atomic move: the rotations applied to each layer before the flip and
/// the rotations applied after it, counted in pieces.
#[derive(Debug, Clone, Copy, PartialEq, Eq, Structural)]
pub struct Change {
    /// Rotation of the top layer before the flip.
    pub top_before: u8,
    /// Rotation of the bottom layer before the flip.
    pub bottom_before: u8,
    /// Rotation of the top layer after the flip (before the closing flip).
    pub top_after: u8,
    /// Rotation of the bottom layer after the flip.
    pub bottom_after: u8,
}

/// A move together with the configuration it produces.
#[derive(Debug, Clone, Copy, PartialEq, Eq, Structural)]
pub struct Movement {
    /// The move that was performed.
    pub change: Change,
    /// The configuration reached by the move.
    pub position: Position,
}

/// A helper struct used by [`Position::neighbours()`] to avoid intermediate
/// allocations in every call.
#[derive(Debug, Clone)]
pub struct NeighboursStack {
    /// The moves generated by the latest call.
    pub neighbours: Vec<Movement>,
    /// Scratch list for the rotations of the top layer before the flip.
    pub top_before_rotations: Vec<(RotatableLayer, u8)>,
    /// Scratch list for the rotations of the bottom layer before the flip.
    pub bottom_before_rotations: Vec<(RotatableLayer, u8)>,
    /// Scratch list for the rotations of the top layer after the flip.
    pub top_after_rotations: Vec<(RotatableLayer, u8)>,
    /// Scratch list for the rotations of the bottom layer after the flip.
    pub bottom_after_rotations: Vec<(RotatableLayer, u8)>,
}

/// Whether the four rotation amounts of `c` are all legal from the
/// configuration `bits`.
pub open spec fn spec_valid_change(bits: u64, c: Change) -> bool {
    &&& splittable(bits)
    &&& {
        let (t, b) = RotatableLayer::spec_split(bits);
        &&& t.rot_valid(c.top_before as int)
        &&& c.top_before < t.n()
        &&& b.rot_valid(c.bottom_before as int)
        &&& c.bottom_before < b.n()
        &&& {
            let (ft, fb) = flip_spec(
                t.rot_layer(c.top_before as int),
                b.rot_layer(c.bottom_before as int),
            );
            &&& ft.rot_valid(c.top_after as int)
            &&& c.top_after < ft.n()
            &&& fb.rot_valid(c.bottom_after as int)
            &&& c.bottom_after < fb.n()
        }
    }
}

/// The configuration reached from `bits` by performing the move `c`:
/// rotate both layers, flip, rotate both layers again, flip again.
pub open spec fn spec_apply_change(bits: u64, c: Change) -> u64 {
    let (t, b) = RotatableLayer::spec_split(bits);
    let (ft, fb) = flip_spec(t.rot_layer(c.top_before as int), b.rot_layer(c.bottom_before as int));
    let (gt, gb) = flip_spec(
        ft.rot_layer(c.top_after as int),
        fb.rot_layer(c.bottom_after as int),
    );
    RotatableLayer::spec_join(gt, gb)
}

/// The movement built from two before-flip shifts and two after-flip
/// rotation entries.
pub open spec fn make_move(
    tb: u8,
    bb: u8,
    ta: (RotatableLayer, u8),
    ba: (RotatableLayer, u8),
) -> Movement {
    let (gt, gb) = flip_spec(ta.0, ba.0);
    Movement {
        change: Change { top_before: tb, bottom_before: bb, top_after: ta.1, bottom_after: ba.1 },
        position: Position { pieces: RotatableLayer::spec_join(gt, gb) },
    }
}

/// The movements for one pair of before-flip rotations and one after-flip
/// top rotation, walking the first `m` after-flip bottom rotations.
pub open spec fn row_moves(
    tb: u8,
    bb: u8,
    ta: (RotatableLayer, u8),
    ba_list: Seq<(RotatableLayer, u8)>,
    m: int,
) -> Seq<Movement>
    decreases m,
{
    if m <= 0 {
        Seq::empty()
    } else {
        row_moves(tb, bb, ta, ba_list, m - 1).push(make_move(tb, bb, ta, ba_list[m - 1]))
    }
}

/// The movements for one pair of before-flip rotations, walking the first
/// `m` after-flip top rotations.
pub open spec fn block_moves(
    tb: u8,
    bb: u8,
    ta_list: Seq<(RotatableLayer, u8)>,
    ba_list: Seq<(RotatableLayer, u8)>,
    m: int,
) -> Seq<Movement>
    decreases m,
{
    if m <= 0 {
        Seq::empty()
    } else {
        block_moves(tb, bb, ta_list, ba_list, m - 1) + row_moves(
            tb,
            bb,
            ta_list[m - 1],
            ba_list,
            ba_list.len() as int,
        )
    }
}

/// All movements for one pair of before-flip rotation entries.
pub open spec fn pair_moves(tr: (RotatableLayer, u8), br: (RotatableLayer, u8)) -> Seq<Movement> {
    let (ft, fb) = flip_spec(tr.0, br.0);
    block_moves(tr.1, br.1, ft.spec_rotations(), fb.spec_rotations(), ft.spec_rotations().len() as int)
}

/// The movements for one top rotation entry, walking the first `m` bottom
/// rotation entries.
pub open spec fn pairs_for(
    tr: (RotatableLayer, u8),
    b_list: Seq<(RotatableLayer, u8)>,
    m: int,
) -> Seq<Movement>
    decreases m,
{
    if m <= 0 {
        Seq::empty()
    } else {
        pairs_for(tr, b_list, m - 1) + pair_moves(tr, b_list[m - 1])
    }
}

/// The movements for the first `m` top rotation entries.
pub open spec fn all_moves(
    t_list: Seq<(RotatableLayer, u8)>,
    b_list: Seq<(RotatableLayer, u8)>,
    m: int,
) -> Seq<Movement>
    decreases m,
{
    if m <= 0 {
        Seq::empty()
    } else {
        all_moves(t_list, b_list, m - 1) + pairs_for(t_list[m - 1], b_list, b_list.len() as int)
    }
}

/// Every movement reachable from `bits` by one atomic move, in the order the
/// nested rotation enumeration produces them.
pub open spec fn spec_neighbours(bits: u64) -> Seq<Movement> {
    let (t, b) = RotatableLayer::spec_split(bits);
    all_moves(t.spec_rotations(), b.spec_rotations(), t.spec_rotations().len() as int)
}

/// The sequence of pieces of the solved configuration, top layer first.
pub open spec fn solved_pieces() -> Seq<Piece> {
    seq![
        Piece::WhiteRedBlue,
        Piece::WhiteBlue,
        Piece::WhiteBlueOrange,
        Piece::WhiteOrange,
        Piece::WhiteOrangeGreen,
        Piece::WhiteGreen,
        Piece::WhiteGreenRed,
        Piece::WhiteRed,
        Piece::YellowOrange,
        Piece::YellowOrangeBlue,
        Piece::YellowBlue,
        Piece::YellowBlueRed,
        Piece::YellowRed,
        Piece::YellowRedGreen,
        Piece::YellowGreen,
        Piece::YellowGreenOrange,
    ]
}

/// The pieces of a configuration in display order, first piece of the top
/// layer first.
pub open spec fn spec_pieces_of(bits: u64) -> Seq<Piece> {
    Seq::new(16, |i: int| Piece::spec_from_bits(nib(bits, (15 - i) as u64)))
}

/// The slots occupied by the first `i` pieces of a sequence.
pub open spec fn spec_sizes_upto(ps: Seq<Piece>, i: int) -> int
    decreases i,
{
    if i <= 0 {
        0
    } else {
        spec_sizes_upto(ps, i - 1) + ps[i - 1].spec_size()
    }
}

/// The display text of the pieces from `i` on: each piece's label, with a
/// bar between the four six-slot quarters and a space elsewhere.
pub open spec fn spec_display_from(ps: Seq<Piece>, i: int) -> Seq<char>
    decreases ps.len() - i,
{
    if i < 0 || i >= ps.len() {
        Seq::empty()
    } else {
        let size = spec_sizes_upto(ps, i);
        (if size == 6 || size == 12 || size == 18 {
            (" | ")@
        } else if size != 0 {
            (" ")@
        } else {
            Seq::<char>::empty()
        }) + ps[i].spec_label() + spec_display_from(ps, i + 1)
    }
}

/// The display text of a whole configuration.
pub open spec fn spec_position_display(bits: u64) -> Seq<char> {
    spec_display_from(spec_pieces_of(bits), 0)
}

/// The score of a full configuration: the scores of its two layers added.
pub open spec fn spec_position_score(bits: u64) -> int {
    let k = half_len(bits, 12).unwrap();
    spec_score(bits >> ((4 * k) as u64), 16 - k) + spec_score(
        bits & crate::packing::low_mask(k as u64),
        k,
    )
}

impl Position {
    /// The solved configuration.
    pub fn solved() -> (r: Self)
        ensures
            r.pieces == pack_pieces(solved_pieces()),
    {
        let r = Self::from_pieces(
            [
                Piece::WhiteRedBlue,
                Piece::WhiteBlue,
                Piece::WhiteBlueOrange,
                Piece::WhiteOrange,
                Piece::WhiteOrangeGreen,
                Piece::WhiteGreen,
                Piece::WhiteGreenRed,
                Piece::WhiteRed,
                Piece::YellowOrange,
                Piece::YellowOrangeBlue,
                Piece::YellowBlue,
                Piece::YellowBlueRed,
                Piece::YellowRed,
                Piece::YellowRedGreen,
                Piece::YellowGreen,
                Piece::YellowGreenOrange,
            ],
        );
        proof {
            assert(seq![
                Piece::WhiteRedBlue,
                Piece::WhiteBlue,
                Piece::WhiteBlueOrange,
                Piece::WhiteOrange,
                Piece::WhiteOrangeGreen,
                Piece::WhiteGreen,
                Piece::WhiteGreenRed,
                Piece::WhiteRed,
                Piece::YellowOrange,
                Piece::YellowOrangeBlue,
                Piece::YellowBlue,
                Piece::YellowBlueRed,
                Piece::YellowRed,
                Piece::YellowRedGreen,
                Piece::YellowGreen,
                Piece::YellowGreenOrange,
            ] =~= solved_pieces());
        }
        r
    }

    /// Pack an explicit assignment of the sixteen pieces into a
    /// configuration.  The pieces must be pairwise distinct: handing in
    /// anything but a permutation of the sixteen identities is a caller bug.
    pub fn from_pieces(pieces: [Piece; 16]) -> (r: Self)
        requires
            forall|i: int, j: int| 0 <= i < j < 16 ==> pieces@[i] != pieces@[j],
        ensures
            r.pieces == pack_pieces(pieces@),
    {
        let mut as_bits: u64 = 0;
        let mut i: usize = 0;
        while i < 16
            invariant
                0 <= i <= 16,
                as_bits == pack_pieces(pieces@.take(i as int)),
            decreases 16 - i,
        {
            let tag = pieces[i].as_bits();
            proof {
                assert(pieces@.take(i + 1).drop_last() =~= pieces@.take(i as int));
            }
            as_bits = (as_bits << 4u64) | tag;
            i = i + 1;
        }
        proof {
            assert(pieces@.take(16) =~= pieces@);
        }
        Position { pieces: as_bits }
    }

    /// Unpack the configuration back into its sixteen pieces, first piece of
    /// the top layer first.
    pub fn pieces(&self) -> (r: [Piece; 16])
        ensures
            forall|i: int|
                0 <= i < 16 ==> r@[i] == Piece::spec_from_bits(
                    nib(self.pieces, (15 - i) as u64),
                ),
    {
        let mut pieces = [Piece::YellowRedGreen; 16];
        let mut bits = self.pieces;
        proof {
            let p = self.pieces;
            assert(p >> ((4 * (16 - 16u64)) as u64) == p) by (bit_vector);
        }
        let mut i: usize = 16;
        while i > 0
            invariant
                0 <= i <= 16,
                bits == self.pieces >> ((4 * (16 - i)) as u64),
                forall|j: int|
                    i <= j < 16 ==> pieces@[j] == Piece::spec_from_bits(
                        nib(self.pieces, (15 - j) as u64),
                    ),
            decreases i,
        {
            let tag = bits & 0xF;
            proof {
                let ii = i as u64;
                let p = self.pieces;
                assert((p >> ((4 * (16 - ii)) as u64)) & 0xF == nib(p, (16 - ii) as u64) && ((p
                    >> ((4 * (16 - ii)) as u64)) & 0xF) < 16 && (p >> ((4 * (16 - ii)) as u64))
                    >> 4 == p >> ((4 * (16 - ii + 1)) as u64)) by (bit_vector)
                    requires
                        1 <= ii <= 16u64,
                ;
            }
            i = i - 1;
            pieces[i] = Piece::from_bits(tag);
            bits = bits >> 4;
        }
        pieces
    }

    /// Store in `stack` every movement reachable from this configuration by
    /// one atomic move: rotate both layers, flip, rotate both layers again,
    /// flip again, over all combinations of legal rotations.
    pub fn neighbours(&self, stack: &mut NeighboursStack)
        requires
            splittable(self.pieces),
        ensures
            final(stack).neighbours@ == spec_neighbours(self.pieces),
    {
        stack.neighbours.clear();

        let (top, bottom) = RotatableLayer::split(self.pieces);
        top.rotations(&mut stack.top_before_rotations);
        bottom.rotations(&mut stack.bottom_before_rotations);
        proof {
            lemma_rotations_props(top, top.n());
            lemma_rotations_props(bottom, bottom.n());
        }
        let ghost t_list = top.spec_rotations();
        let ghost b_list = bottom.spec_rotations();

        let mut i: usize = 0;
        while i < stack.top_before_rotations.len()
            invariant
                splittable(self.pieces),
                (top, bottom) == RotatableLayer::spec_split(self.pieces),
                top.wf(),
                bottom.wf(),
                top.n() + bottom.n() == 16,
                stack.top_before_rotations@ == t_list,
                stack.bottom_before_rotations@ == b_list,
                t_list == top.spec_rotations(),
                b_list == bottom.spec_rotations(),
                0 <= i <= t_list.len(),
                stack.neighbours@ == all_moves(t_list, b_list, i as int),
            decreases t_list.len() - i,
        {
            proof {
                lemma_rotations_props(top, top.n());
            }
            let entry_t = stack.top_before_rotations[i];
            let rotated_top = entry_t.0;
            let top_before = entry_t.1;

            let mut j: usize = 0;
            while j < stack.bottom_before_rotations.len()
                invariant
                    splittable(self.pieces),
                    (top, bottom) == RotatableLayer::spec_split(self.pieces),
                    top.wf(),
                    bottom.wf(),
                    top.n() + bottom.n() == 16,
                    stack.top_before_rotations@ == t_list,
                    stack.bottom_before_rotations@ == b_list,
                    t_list == top.spec_rotations(),
                    b_list == bottom.spec_rotations(),
                    0 <= i < t_list.len(),
                    (rotated_top, top_before) == t_list[i as int],
                    rotated_top.wf(),
                    rotated_top.n() == top.n(),
                    0 <= j <= b_list.len(),
                    stack.neighbours@ == all_moves(t_list, b_list, i as int) + pairs_for(
                        t_list[i as int],
                        b_list,
                        j as int,
                    ),
                decreases b_list.len() - j,
            {
                proof {
                    lemma_rotations_props(bottom, bottom.n());
                }
                let entry_b = stack.bottom_before_rotations[j];
                let rotated_bottom = entry_b.0;
                let bottom_before = entry_b.1;

                let (flipped_top, flipped_bottom) = RotatableLayer::flip(
                    rotated_top,
                    rotated_bottom,
                );
                flipped_top.rotations(&mut stack.top_after_rotations);
                flipped_bottom.rotations(&mut stack.bottom_after_rotations);
                proof {
                    lemma_rotations_props(flipped_top, flipped_top.n());
                    lemma_rotations_props(flipped_bottom, flipped_bottom.n());
                }
                let ghost ta_list = flipped_top.spec_rotations();
                let ghost ba_list = flipped_bottom.spec_rotations();
                let ghost prefix = all_moves(t_list, b_list, i as int) + pairs_for(
                    t_list[i as int],
                    b_list,
                    j as int,
                );

                let mut a: usize = 0;
                while a < stack.top_after_rotations.len()
                    invariant
                        stack.top_before_rotations@ == t_list,
                        stack.bottom_before_rotations@ == b_list,
                        stack.top_after_rotations@ == ta_list,
                        stack.bottom_after_rotations@ == ba_list,
                        flipped_top.wf(),
                        flipped_bottom.wf(),
                        flipped_top.n() + flipped_bottom.n() == 16,
                        ta_list == flipped_top.spec_rotations(),
                        ba_list == flipped_bottom.spec_rotations(),
                        0 <= a <= ta_list.len(),
                        stack.neighbours@ == prefix + block_moves(
                            top_before,
                            bottom_before,
                            ta_list,
                            ba_list,
                            a as int,
                        ),
                    decreases ta_list.len() - a,
                {
                    proof {
                        lemma_rotations_props(flipped_top, flipped_top.n());
                    }
                    let entry_ta = stack.top_after_rotations[a];
                    let rotated_top_after = entry_ta.0;
                    let top_after = entry_ta.1;
                    let ghost block_prefix = prefix + block_moves(
                        top_before,
                        bottom_before,
                        ta_list,
                        ba_list,
                        a as int,
                    );

                    let mut d: usize = 0;
                    while d < stack.bottom_after_rotations.len()
                        invariant
                            stack.top_before_rotations@ == t_list,
                            stack.bottom_before_rotations@ == b_list,
                            stack.top_after_rotations@ == ta_list,
                            stack.bottom_after_rotations@ == ba_list,
                            flipped_top.wf(),
                            flipped_bottom.wf(),
                            flipped_top.n() + flipped_bottom.n() == 16,
                            ta_list == flipped_top.spec_rotations(),
                            ba_list == flipped_bottom.spec_rotations(),
                            0 <= a < ta_list.len(),
                            (rotated_top_after, top_after) == ta_list[a as int],
                            rotated_top_after.wf(),
                            rotated_top_after.n() == flipped_top.n(),
                            0 <= d <= ba_list.len(),
                            stack.neighbours@ == block_prefix + row_moves(
                                top_before,
                                bottom_before,
                                ta_list[a as int],
                                ba_list,
                                d as int,
                            ),
                        decreases ba_list.len() - d,
                    {
                        proof {
                            lemma_rotations_props(flipped_bottom, flipped_bottom.n());
                        }
                        let entry_ba = stack.bottom_after_rotations[d];
                        let rotated_bottom_after = entry_ba.0;
                        let bottom_after = entry_ba.1;

                        let (final_top, final_bottom) = RotatableLayer::flip(
                            rotated_top_after,
                            rotated_bottom_after,
                        );
                        let joined = RotatableLayer::join(final_top, final_bottom);

                        stack.neighbours.push(
                            Movement {
                                change: Change {
                                    top_before,
                                    bottom_before,
                                    top_after,
                                    bottom_after,
                                },
                                position: Position { pieces: joined },
                            },
                        );
                        proof {
                            assert(stack.neighbours@ =~= block_prefix + row_moves(
                                top_before,
                                bottom_before,
                                ta_list[a as int],
                                ba_list,
                                d + 1,
                            ));
                        }
                        d = d + 1;
                    }
                    proof {
                        assert(stack.neighbours@ =~= prefix + block_moves(
                            top_before,
                            bottom_before,
                            ta_list,
                            ba_list,
                            a + 1,
                        ));
                    }
                    a = a + 1;
                }
                proof {
                    assert((flipped_top, flipped_bottom) == flip_spec(
                        t_list[i as int].0,
                        b_list[j as int].0,
                    ));
                    assert(stack.neighbours@ =~= all_moves(t_list, b_list, i as int) + pairs_for(
                        t_list[i as int],
                        b_list,
                        j + 1,
                    ));
                }
                j = j + 1;
            }
            proof {
                assert(stack.neighbours@ =~= all_moves(t_list, b_list, i + 1));
            }
            i = i + 1;
        }
    }

    /// The packed form of this configuration, used as its dedup key.
    pub fn as_bytes(&self) -> (r: u64)
        ensures
            r == self.pieces,
    {
        self.pieces
    }

    /// The heuristic score of this configuration: across both layers, how
    /// many adjacent piece pairs already sit in their solved cyclic order.
    pub fn score(self) -> (r: u8)
        requires
            scorable(self.pieces),
        ensures
            r == spec_position_score(self.pieces),
            r <= 16,
    {
        let (top, bottom) = ScorableLayer::split(self.pieces);
        top.score() + bottom.score()
    }
}

/// What the search relies on of a movement generated from `bits`: its change
/// is legal from `bits`, its position is exactly the one the change reaches,
/// and that position can be split again.
pub open spec fn move_ok(bits: u64, m: Movement) -> bool {
    &&& spec_valid_change(bits, m.change)
    &&& m.position.pieces == spec_apply_change(bits, m.change)
    &&& splittable(m.position.pieces)
}

/// A row holds one movement per walked bottom rotation, in order.
proof fn lemma_row_moves_index(
    tb: u8,
    bb: u8,
    ta: (RotatableLayer, u8),
    ba_list: Seq<(RotatableLayer, u8)>,
    m: int,
)
    requires
        0 <= m,
    ensures
        row_moves(tb, bb, ta, ba_list, m).len() == m,
        forall|idx: int|
            0 <= idx < m ==> row_moves(tb, bb, ta, ba_list, m)[idx] == make_move(
                tb,
                bb,
                ta,
                ba_list[idx],
            ),
    decreases m,
{
    if m > 0 {
        lemma_row_moves_index(tb, bb, ta, ba_list, m - 1);
    }
}

/// Every movement of a block is built from one walked top rotation and one
/// bottom rotation.
proof fn lemma_block_moves_elem(
    tb: u8,
    bb: u8,
    ta_list: Seq<(RotatableLayer, u8)>,
    ba_list: Seq<(RotatableLayer, u8)>,
    m: int,
)
    requires
        0 <= m,
    ensures
        forall|idx: int|
            0 <= idx < block_moves(tb, bb, ta_list, ba_list, m).len() ==> exists|a: int, d: int|
                0 <= a < m && 0 <= d < ba_list.len() && #[trigger] block_moves(
                    tb,
                    bb,
                    ta_list,
                    ba_list,
                    m,
                )[idx] == #[trigger] make_move(tb, bb, ta_list[a], ba_list[d]),
    decreases m,
{
    if m > 0 {
        lemma_block_moves_elem(tb, bb, ta_list, ba_list, m - 1);
        lemma_row_moves_index(tb, bb, ta_list[m - 1], ba_list, ba_list.len() as int);
        let prev = block_moves(tb, bb, ta_list, ba_list, m - 1);
        let row = row_moves(tb, bb, ta_list[m - 1], ba_list, ba_list.len() as int);
        assert forall|idx: int|
            0 <= idx < block_moves(tb, bb, ta_list, ba_list, m).len() implies exists|
            a: int,
            d: int,
        |
            0 <= a < m && 0 <= d < ba_list.len() && #[trigger] block_moves(
                tb,
                bb,
                ta_list,
                ba_list,
                m,
            )[idx] == #[trigger] make_move(tb, bb, ta_list[a], ba_list[d]) by {
            if idx < prev.len() {
                assert(block_moves(tb, bb, ta_list, ba_list, m)[idx] == prev[idx]);
            } else {
                let d = idx - prev.len();
                assert(block_moves(tb, bb, ta_list, ba_list, m)[idx] == row[d]);
                assert(row[d] == make_move(tb, bb, ta_list[m - 1], ba_list[d]));
                assert(0 <= m - 1 < m && 0 <= d < ba_list.len() && block_moves(
                    tb,
                    bb,
                    ta_list,
                    ba_list,
                    m,
                )[idx] == make_move(tb, bb, ta_list[m - 1], ba_list[d]));
            }
        }
    }
}

/// Every movement generated for one pair of before-flip rotation entries
/// satisfies `move_ok`.
proof fn lemma_pair_moves_sound(bits: u64, i: int, j: int)
    requires
        splittable(bits),
        0 <= i < RotatableLayer::spec_split(bits).0.spec_rotations().len(),
        0 <= j < RotatableLayer::spec_split(bits).1.spec_rotations().len(),
    ensures
        ({
            let (t, b) = RotatableLayer::spec_split(bits);
            let pm = pair_moves(t.spec_rotations()[i], b.spec_rotations()[j]);
            forall|idx: int| 0 <= idx < pm.len() ==> move_ok(bits, #[trigger] pm[idx])
        }),
{
    let (t, b) = RotatableLayer::spec_split(bits);
    lemma_spec_split_props(bits);
    lemma_rotations_props(t, t.n());
    lemma_rotations_props(b, b.n());
    let tr = t.spec_rotations()[i];
    let br = b.spec_rotations()[j];
    let (ft, fb) = flip_spec(tr.0, br.0);
    lemma_rotations_props(ft, ft.n());
    lemma_rotations_props(fb, fb.n());
    let ta_list = ft.spec_rotations();
    let ba_list = fb.spec_rotations();
    lemma_block_moves_elem(tr.1, br.1, ta_list, ba_list, ta_list.len() as int);
    let pm = pair_moves(tr, br);
    assert forall|idx: int| 0 <= idx < pm.len() implies move_ok(bits, #[trigger] pm[idx]) by {
        let (a, d) = choose|a: int, d: int|
            0 <= a < ta_list.len() && 0 <= d < ba_list.len() && pm[idx] == #[trigger] make_move(
                tr.1,
                br.1,
                ta_list[a],
                ba_list[d],
            );
        let ta = ta_list[a];
        let ba = ba_list[d];
        let (gt, gb) = flip_spec(ta.0, ba.0);
        lemma_split_join(gt, gb);
    }
}

/// Every movement generated for a walked prefix of bottom rotation entries
/// satisfies `move_ok`.
proof fn lemma_pairs_for_sound(bits: u64, i: int, m: int)
    requires
        splittable(bits),
        0 <= i < RotatableLayer::spec_split(bits).0.spec_rotations().len(),
        0 <= m <= RotatableLayer::spec_split(bits).1.spec_rotations().len(),
    ensures
        ({
            let (t, b) = RotatableLayer::spec_split(bits);
            let pf = pairs_for(t.spec_rotations()[i], b.spec_rotations(), m);
            forall|idx: int| 0 <= idx < pf.len() ==> move_ok(bits, #[trigger] pf[idx])
        }),
    decreases m,
{
    let (t, b) = RotatableLayer::spec_split(bits);
    let tr = t.spec_rotations()[i];
    let b_list = b.spec_rotations();
    if m > 0 {
        lemma_pairs_for_sound(bits, i, m - 1);
        lemma_pair_moves_sound(bits, i, m - 1);
        let prev = pairs_for(tr, b_list, m - 1);
        let pm = pair_moves(tr, b_list[m - 1]);
        assert forall|idx: int| 0 <= idx < pairs_for(tr, b_list, m).len() implies move_ok(
            bits,
            #[trigger] pairs_for(tr, b_list, m)[idx],
        ) by {
            if idx < prev.len() {
                assert(pairs_for(tr, b_list, m)[idx] == prev[idx]);
            } else {
                assert(pairs_for(tr, b_list, m)[idx] == pm[idx - prev.len()]);
            }
        }
    }
}

/// Every movement generated for a walked prefix of top rotation entries
/// satisfies `move_ok`.
proof fn lemma_all_moves_sound(bits: u64, m: int)
    requires
        splittable(bits),
        0 <= m <= RotatableLayer::spec_split(bits).0.spec_rotations().len(),
    ensures
        ({
            let (t, b) = RotatableLayer::spec_split(bits);
            let am = all_moves(t.spec_rotations(), b.spec_rotations(), m);
            forall|idx: int| 0 <= idx < am.len() ==> move_ok(bits, #[trigger] am[idx])
        }),
    decreases m,
{
    let (t, b) = RotatableLayer::spec_split(bits);
    let t_list = t.spec_rotations();
    let b_list = b.spec_rotations();
    if m > 0 {
        lemma_all_moves_sound(bits, m - 1);
        lemma_pairs_for_sound(bits, m - 1, b_list.len() as int);
        let prev = all_moves(t_list, b_list, m - 1);
        let pf = pairs_for(t_list[m - 1], b_list, b_list.len() as int);
        assert forall|idx: int| 0 <= idx < all_moves(t_list, b_list, m).len() implies move_ok(
            bits,
            #[trigger] all_moves(t_list, b_list, m)[idx],
        ) by {
            if idx < prev.len() {
                assert(all_moves(t_list, b_list, m)[idx] == prev[idx]);
            } else {
                assert(all_moves(t_list, b_list, m)[idx] == pf[idx - prev.len()]);
            }
        }
    }
}

/// Law: every movement that the neighbour enumeration yields performs a
/// legal move, lands exactly on the configuration that move reaches, and
/// that configuration is again splittable.
pub proof fn lemma_neighbours_sound(bits: u64)
    requires
        splittable(bits),
    ensures
        forall|idx: int|
            0 <= idx < spec_neighbours(bits).len() ==> move_ok(
                bits,
                #[trigger] spec_neighbours(bits)[idx],
            ),
{
    let (t, b) = RotatableLayer::spec_split(bits);
    lemma_all_moves_sound(bits, t.spec_rotations().len() as int);
}

/// Law: a splittable configuration always has the twelve-slot boundary that
/// scoring needs, so every configuration the search visits can be scored.
pub proof fn lemma_splittable_scorable(bits: u64)
    requires
        splittable(bits),
    ensures
        scorable(bits),
{
    let k1 = half_len(bits, 6).unwrap();
    let r1 = bits >> ((4 * k1) as u64);
    let k2 = half_len(r1, 6).unwrap();
    crate::packing::lemma_half_len_from_some(bits, 6, 1, k1);
    crate::packing::lemma_half_len_from_some(r1, 6, 1, k2);
    assert forall|ii: u64| ii < k2 implies nib(r1, ii) == nib(bits, (ii + k1) as u64) by {
        lemma_nib_shr(bits, k1 as u64, ii);
    }
    lemma_slot_sum_offset(r1, bits, k1, k2);
    assert forall|jj: int| 1 <= jj < k1 + k2 implies slot_sum(bits, jj) < 12 by {
        if jj <= k1 {
            lemma_slot_sum_mono(bits, jj, k1);
        } else {
            lemma_slot_sum_offset(r1, bits, k1, jj - k1);
            lemma_slot_sum_mono(r1, jj - k1, k2);
        }
    }
    lemma_half_len_from_found(bits, 12, 1, k1 + k2);
}

impl Position {
    /// Whether this configuration can be split into two well-formed layers.
    /// The search may only start from a configuration for which this holds.
    pub fn check_splittable(&self) -> (r: bool)
        ensures
            r == splittable(self.pieces),
    {
        match crate::packing::extract_half(self.pieces, 6) {
            None => false,
            Some((p1, k1, r1)) => match crate::packing::extract_half(r1, 6) {
                None => false,
                Some((p2, k2, r2)) => match crate::packing::extract_half(r2, 6) {
                    None => false,
                    Some((p3, k3, r3)) => {
                        let ghost m = 16 - k1 - k2 - k3;
                        match crate::packing::extract_half(r3, 6) {
                            None => {
                                proof {
                                    crate::packing::lemma_half_len_none_sound(r3, 6, 1);
                                    if slot_sum(r3, m) == 6 {
                                        crate::packing::lemma_slot_sum_bounds(r3, m);
                                    }
                                }
                                false
                            },
                            Some((p4, k4, r4)) => {
                                proof {
                                    if k4 + k1 + k2 + k3 != 16 && slot_sum(r3, m) == 6 {
                                        crate::packing::lemma_slot_sum_bounds(r3, m);
                                        if (k4 as int) < m {
                                            lemma_slot_sum_mono(r3, k4 as int, m);
                                        } else {
                                            lemma_slot_sum_mono(r3, m, k4 as int);
                                        }
                                    }
                                }
                                k4 + k1 + k2 + k3 == 16
                            },
                        }
                    },
                },
            },
        }
    }

    /// A readable form of the configuration: the pieces in order, with a bar
    /// after every six slots.
    pub fn display(&self) -> (r: String)
        ensures
            r@ == spec_position_display(self.pieces),
    {
        let pieces = self.pieces();
        let ghost ps = spec_pieces_of(self.pieces);
        proof {
            assert(pieces@ =~= ps);
        }
        let mut out = String::new();
        let mut size: u32 = 0;
        let mut i: usize = 0;
        while i < 16
            invariant
                0 <= i <= 16,
                pieces@ =~= ps,
                ps.len() == 16,
                size == spec_sizes_upto(ps, i as int),
                size <= 2 * i,
                out@ + spec_display_from(ps, i as int) == spec_position_display(self.pieces),
            decreases 16 - i,
        {
            if size == 6 || size == 12 || size == 18 {
                out.append(" | ");
            } else if size != 0 {
                out.append(" ");
            }
            out.append(pieces[i].label());
            proof {
                assert(out@ + spec_display_from(ps, i + 1) =~= spec_position_display(
                    self.pieces,
                ));
            }
            size = size + pieces[i].size() as u32;
            i = i + 1;
        }
        proof {
            assert(out@ =~= spec_position_display(self.pieces));
        }
        out
    }
}

impl Movement {
    /// The placeholder movement that seeds a search: no rotations, landing
    /// on the given configuration.
    pub fn initial_movement(position: Position) -> (r: Movement)
        ensures
            r.position == position,
            r.change == (Change { top_before: 0, bottom_before: 0, top_after: 0, bottom_after: 0 }),
    {
        Movement {
            change: Change { top_before: 0, bottom_before: 0, top_after: 0, bottom_after: 0 },
            position,
        }
    }

    /// The configuration this movement reaches.
    pub fn position(&self) -> (r: Position)
        ensures
            r == self.position,
    {
        self.position
    }

    /// The move this movement performs.
    pub fn change(&self) -> (r: Change)
        ensures
            r == self.change,
    {
        self.change
    }
}

impl NeighboursStack {
    /// A fresh scratch buffer for neighbour enumeration.
    pub fn new() -> (r: Self)
        ensures
            r.neighbours@.len() == 0,
    {
        NeighboursStack {
            // Worst-case scenario: each one of `top_before`, `bottom_before`,
            // `top_after`, `bottom_after` goes from 0 to 9 (inclusive).
            neighbours: Vec::with_capacity(10000),
            top_before_rotations: Vec::with_capacity(10),
            bottom_before_rotations: Vec::with_capacity(10),
            top_after_rotations: Vec::with_capacity(10),
            bottom_after_rotations: Vec::with_capacity(10),
        }
    }

    /// The movements generated by the latest neighbour enumeration.
    pub fn neighbours(&self) -> (r: &Vec<Movement>)
        ensures
            r == &self.neighbours,
    {
        &self.neighbours
    }
}

} // verus!
