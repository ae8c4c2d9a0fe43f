//! Packed-configuration arithmetic: nibble access, slot accounting, boundary
//! search, and cyclic rotation of 4-bit piece patterns inside a `u64`.

use vstd::prelude::*;

verus! {

/// Number of bits one piece occupies in a packed pattern.
pub const BITS_PER_PIECE: u32 = 4;

/// Mask selecting the lowest (right-most) piece of a packed pattern.
pub const LAST_PIECE_MASK: u64 = 0xF;

/// The `i`-th piece tag of a packed pattern, counting from the low end.
pub open spec fn nib(bits: u64, i: u64) -> u64 {
    (bits >> ((4 * i) as u64)) & 0xF
}

/// How many layer slots the piece tag `x` occupies: big pieces (bit 1 set)
/// take two slots, small pieces take one.
pub open spec fn nib_slots(x: u64) -> int {
    if x & 2 == 2 {
        2
    } else {
        1
    }
}

/// Total number of slots occupied by the lowest `k` pieces of a pattern.
pub open spec fn slot_sum(bits: u64, k: int) -> int
    decreases k,
{
    if k <= 0 {
        0
    } else {
        slot_sum(bits, k - 1) + nib_slots(nib(bits, (k - 1) as u64))
    }
}

/// The mask keeping the lowest `k` pieces of a pattern.
pub open spec fn low_mask(k: u64) -> u64
    recommends
        k <= 15,
{
    ((1u64 << ((4 * k) as u64)) - 1) as u64
}

/// The piece count of the shortest non-empty prefix (searched from `k` on)
/// of a pattern's low pieces that occupies exactly `target` slots, if any.
pub open spec fn half_len_from(bits: u64, target: int, k: int) -> Option<int>
    decreases target + 1 - k,
{
    if k < 1 || k > target {
        None
    } else if slot_sum(bits, k) == target {
        Some(k)
    } else {
        half_len_from(bits, target, k + 1)
    }
}

/// The piece count of the low half of a pattern: the unique `k` such that the
/// lowest `k` pieces occupy exactly `target` slots, or `None` if the slot
/// counts skip over `target` (a big piece straddles the boundary).
pub open spec fn half_len(bits: u64, target: int) -> Option<int> {
    half_len_from(bits, target, 1)
}

/// Each piece occupies one or two slots, so the slot count of a prefix grows
/// strictly with its piece count, staying between `k` and `2 * k`.
pub proof fn lemma_slot_sum_bounds(bits: u64, k: int)
    requires
        0 <= k,
    ensures
        k <= slot_sum(bits, k) <= 2 * k,
    decreases k,
{
    if k > 0 {
        lemma_slot_sum_bounds(bits, k - 1);
    }
}

/// Slot counts of prefixes are strictly monotone in the piece count.
pub proof fn lemma_slot_sum_mono(bits: u64, j: int, k: int)
    requires
        0 <= j <= k,
    ensures
        slot_sum(bits, j) <= slot_sum(bits, k),
        j < k ==> slot_sum(bits, j) < slot_sum(bits, k),
    decreases k - j,
{
    if j < k {
        lemma_slot_sum_mono(bits, j, k - 1);
    }
}

/// Two patterns that agree on a window of pieces accumulate the same slot
/// counts over that window.
pub proof fn lemma_slot_sum_offset(x: u64, y: u64, off: int, m: int)
    requires
        0 <= off,
        0 <= m,
        off + m <= 16,
        forall|i: u64| i < m ==> nib(x, i) == nib(y, (i + off) as u64),
    ensures
        slot_sum(x, m) == slot_sum(y, off + m) - slot_sum(y, off),
    decreases m,
{
    if m > 0 {
        lemma_slot_sum_offset(x, y, off, m - 1);
        assert(nib(x, (m - 1) as u64) == nib(y, (m - 1 + off) as u64));
    }
}

/// Two patterns that agree on their lowest `m` pieces accumulate the same
/// slot counts over every prefix of those pieces.
pub proof fn lemma_slot_sum_eq(x: u64, y: u64, m: int)
    requires
        0 <= m <= 16,
        forall|i: u64| i < m ==> nib(x, i) == nib(y, i),
    ensures
        forall|j: int| 0 <= j <= m ==> slot_sum(x, j) == slot_sum(y, j),
    decreases m,
{
    if m > 0 {
        lemma_slot_sum_eq(x, y, m - 1);
        assert(nib(x, (m - 1) as u64) == nib(y, (m - 1) as u64));
        assert(slot_sum(x, m - 1) == slot_sum(y, m - 1));
        assert(slot_sum(x, m) == slot_sum(x, m - 1) + nib_slots(nib(x, (m - 1) as u64)));
        assert(slot_sum(y, m) == slot_sum(y, m - 1) + nib_slots(nib(y, (m - 1) as u64)));
    }
}

/// A boundary reported by `half_len_from` occupies exactly `target` slots,
/// and no shorter prefix in the searched range does.
pub proof fn lemma_half_len_from_some(bits: u64, target: int, k0: int, k: int)
    requires
        half_len_from(bits, target, k0) == Some(k),
        1 <= k0,
    ensures
        k0 <= k <= target,
        slot_sum(bits, k) == target,
        forall|j: int| k0 <= j < k ==> slot_sum(bits, j) != target,
    decreases target + 1 - k0,
{
    if !(k0 < 1 || k0 > target) && slot_sum(bits, k0) != target {
        lemma_half_len_from_some(bits, target, k0 + 1, k);
    }
}

/// If a prefix of `k` pieces occupies exactly `target` slots and every
/// shorter prefix occupies fewer, then the boundary search finds `k`.
pub proof fn lemma_half_len_from_found(bits: u64, target: int, k0: int, k: int)
    requires
        1 <= k0 <= k <= target,
        slot_sum(bits, k) == target,
        forall|j: int| k0 <= j < k ==> slot_sum(bits, j) < target,
    ensures
        half_len_from(bits, target, k0) == Some(k),
    decreases k - k0,
{
    if k0 < k {
        lemma_half_len_from_found(bits, target, k0 + 1, k);
    }
}

/// When the boundary search fails, no prefix in the searched range occupies
/// exactly `target` slots.
pub proof fn lemma_half_len_none_sound(bits: u64, target: int, k0: int)
    requires
        1 <= k0,
        half_len_from(bits, target, k0) is None,
    ensures
        forall|j: int| k0 <= j <= target ==> slot_sum(bits, j) != target,
    decreases target + 1 - k0,
{
    if !(k0 < 1 || k0 > target) {
        lemma_half_len_none_sound(bits, target, k0 + 1);
    }
}

/// If no prefix of at most `target` pieces occupies exactly `target` slots,
/// the boundary search fails.
pub proof fn lemma_half_len_from_none(bits: u64, target: int, k0: int)
    requires
        1 <= k0,
        forall|j: int| k0 <= j <= target ==> slot_sum(bits, j) != target,
    ensures
        half_len_from(bits, target, k0) is None,
    decreases target + 1 - k0,
{
    if !(k0 < 1 || k0 > target) {
        lemma_half_len_from_none(bits, target, k0 + 1);
    }
}

/// Shifting a pattern right by `k` pieces exposes the pieces above `k`.
pub proof fn lemma_nib_shr(bits: u64, k: u64, i: u64)
    requires
        k + i <= 15,
    ensures
        nib(bits >> ((4 * k) as u64), i) == nib(bits, (k + i) as u64),
{
    assert(nib(bits >> ((4 * k) as u64), i) == nib(bits, (k + i) as u64)) by (bit_vector)
        requires
            k + i <= 15,
    ;
}

/// Masking a pattern down to its lowest `k` pieces keeps those pieces.
pub proof fn lemma_nib_low(bits: u64, k: u64, i: u64)
    requires
        i < k <= 15,
    ensures
        nib(bits & low_mask(k), i) == nib(bits, i),
        bits & low_mask(k) < (1u64 << ((4 * k) as u64)),
{
    assert(nib(bits & (((1u64 << ((4 * k) as u64)) - 1) as u64), i) == nib(bits, i) && (bits & (((
    1u64 << ((4 * k) as u64)) - 1) as u64)) < (1u64 << ((4 * k) as u64))) by (bit_vector)
        requires
            i < k <= 15,
    ;
}

/// Masking a pattern down to its lowest `k` pieces keeps all of them.
pub proof fn lemma_nib_low_all(bits: u64, k: u64)
    requires
        k <= 15,
    ensures
        forall|i: u64| i < k ==> nib(bits & low_mask(k), i) == nib(bits, i),
        k > 0 ==> bits & low_mask(k) < (1u64 << ((4 * k) as u64)),
{
    if k > 0 {
        lemma_nib_low(bits, k, 0);
    }
    assert forall|i: u64| i < k implies nib(bits & low_mask(k), i) == nib(bits, i) by {
        lemma_nib_low(bits, k, i);
    }
}

/// A pattern is recovered by re-joining its high part and its lowest `k`
/// pieces.
pub proof fn lemma_split_recompose(bits: u64, k: u64)
    requires
        k <= 15,
    ensures
        ((bits >> ((4 * k) as u64)) << ((4 * k) as u64)) | (bits & low_mask(k)) == bits,
        bits & low_mask(k) < (1u64 << ((4 * k) as u64)),
{
    assert(((bits >> ((4 * k) as u64)) << ((4 * k) as u64)) | (bits & (((1u64 << ((4 * k) as u64))
        - 1) as u64)) == bits && (bits & (((1u64 << ((4 * k) as u64)) - 1) as u64)) < (1u64 << ((4
        * k) as u64))) by (bit_vector)
        requires
            k <= 15,
    ;
}

/// Joining a high part under `k` low pieces places both where expected: the
/// low pieces are recovered by masking, the high part by shifting, and each
/// piece of either part shows up unchanged in the joined pattern.
pub proof fn lemma_join_parts(hi: u64, lo: u64, k: u64)
    requires
        k <= 15,
        lo < (1u64 << ((4 * k) as u64)),
        hi < (1u64 << ((4 * (16 - k)) as u64)),
    ensures
        ((hi << ((4 * k) as u64)) | lo) >> ((4 * k) as u64) == hi,
        ((hi << ((4 * k) as u64)) | lo) & low_mask(k) == lo,
        forall|i: u64| i < k ==> nib((hi << ((4 * k) as u64)) | lo, i) == nib(lo, i),
        forall|i: u64|
            i <= 15 - k ==> nib((hi << ((4 * k) as u64)) | lo, (k + i) as u64) == nib(hi, i),
{
    assert(((hi << ((4 * k) as u64)) | lo) >> ((4 * k) as u64) == hi && ((hi << ((4 * k) as u64))
        | lo) & (((1u64 << ((4 * k) as u64)) - 1) as u64) == lo) by (bit_vector)
        requires
            k <= 15,
            lo < (1u64 << ((4 * k) as u64)),
            hi < (1u64 << ((4 * (16 - k)) as u64)),
    ;
    assert forall|i: u64| i < k implies nib((hi << ((4 * k) as u64)) | lo, i) == nib(lo, i) by {
        assert(i < k <= 15 && lo < (1u64 << ((4 * k) as u64)) ==> nib((hi << ((4 * k) as u64))
            | lo, i) == nib(lo, i)) by (bit_vector);
    }
    assert forall|i: u64| i <= 15 - k implies nib((hi << ((4 * k) as u64)) | lo, (k + i) as u64)
        == nib(hi, i) by {
        assert(k <= 15 && i <= 15 - k && lo < (1u64 << ((4 * k) as u64)) ==> nib((hi << ((4
            * k) as u64)) | lo, (k + i) as u64) == nib(hi, i)) by (bit_vector);
    }
}

/// Joining an `m`-piece pattern above a `k`-piece pattern yields a
/// `k + m`-piece pattern.
pub proof fn lemma_join_fits(hi: u64, lo: u64, k: u64, m: u64)
    requires
        k <= 15,
        m <= 15,
        k + m <= 15,
        hi < (1u64 << ((4 * m) as u64)),
        lo < (1u64 << ((4 * k) as u64)),
    ensures
        ((hi << ((4 * k) as u64)) | lo) < (1u64 << ((4 * (k + m)) as u64)),
{
    assert(((hi << ((4 * k) as u64)) | lo) < (1u64 << ((4 * (k + m)) as u64))) by (bit_vector)
        requires
            k <= 15,
            m <= 15,
            k + m <= 15,
            hi < (1u64 << ((4 * m) as u64)),
            lo < (1u64 << ((4 * k) as u64)),
    ;
}

/// Dropping the lowest `k` pieces of an `n`-piece pattern leaves an
/// `n - k`-piece pattern.
pub proof fn lemma_shr_fits(bits: u64, n: u64, k: u64)
    requires
        k <= n <= 15,
        bits < (1u64 << ((4 * n) as u64)),
    ensures
        (bits >> ((4 * k) as u64)) < (1u64 << ((4 * (n - k)) as u64)),
{
    assert((bits >> ((4 * k) as u64)) < (1u64 << ((4 * (n - k)) as u64))) by (bit_vector)
        requires
            k <= n <= 15,
            bits < (1u64 << ((4 * n) as u64)),
    ;
}

/// One cyclic rotation step of an `n`-piece pattern: the lowest piece moves
/// to the top position.
pub open spec fn rot1(bits: u64, n: u64) -> u64
    recommends
        1 <= n <= 15,
{
    (bits >> 4) | ((bits & 0xF) << ((4 * (n - 1)) as u64))
}

/// `k` cyclic rotation steps of an `n`-piece pattern.
pub open spec fn rot(bits: u64, n: u64, k: int) -> u64
    decreases k,
{
    if k <= 0 {
        bits
    } else {
        rot1(rot(bits, n, k - 1), n)
    }
}

/// Closed form of `k` rotation steps: the lowest `k` pieces move above the
/// remaining `n - k`.
pub open spec fn rot_closed(bits: u64, n: u64, k: u64) -> u64
    recommends
        k <= n <= 15,
{
    (bits >> ((4 * k) as u64)) | ((bits & low_mask(k)) << ((4 * (n - k)) as u64))
}

/// One rotation step keeps an `n`-piece pattern within its `4 * n` bits.
pub proof fn lemma_rot1_fits(bits: u64, n: u64)
    requires
        1 <= n <= 15,
        bits < (1u64 << ((4 * n) as u64)),
    ensures
        rot1(bits, n) < (1u64 << ((4 * n) as u64)),
{
    assert((bits >> 4) | ((bits & 0xF) << ((4 * (n - 1)) as u64)) < (1u64 << ((4 * n) as u64)))
        by (bit_vector)
        requires
            1 <= n <= 15,
            bits < (1u64 << ((4 * n) as u64)),
    ;
}

/// Any number of rotation steps keeps an `n`-piece pattern within its
/// `4 * n` bits.
pub proof fn lemma_rot_fits(bits: u64, n: u64, k: int)
    requires
        1 <= n <= 15,
        0 <= k,
        bits < (1u64 << ((4 * n) as u64)),
    ensures
        rot(bits, n, k) < (1u64 << ((4 * n) as u64)),
    decreases k,
{
    if k > 0 {
        lemma_rot_fits(bits, n, k - 1);
        lemma_rot1_fits(rot(bits, n, k - 1), n);
    }
}

/// Iterated rotation steps match the closed form.
pub proof fn lemma_rot_closed(bits: u64, n: u64, k: u64)
    requires
        k <= n,
        1 <= n <= 15,
        bits < (1u64 << ((4 * n) as u64)),
    ensures
        rot(bits, n, k as int) == rot_closed(bits, n, k),
    decreases k,
{
    if k == 0 {
        assert(rot_closed(bits, n, 0) == bits) by (bit_vector)
            requires
                1 <= n <= 15,
                bits < (1u64 << ((4 * n) as u64)),
        ;
    } else {
        lemma_rot_closed(bits, n, (k - 1) as u64);
        let j = (k - 1) as u64;
        assert(rot1(rot_closed(bits, n, j), n) == rot_closed(bits, n, (j + 1) as u64))
            by (bit_vector)
            requires
                j < n,
                1 <= n <= 15,
                bits < (1u64 << ((4 * n) as u64)),
        ;
    }
}

/// Law: rotating an `n`-piece pattern by `k` steps and then by the remaining
/// `n - k` steps restores the original pattern.
pub proof fn lemma_rot_back(bits: u64, n: u64, k: u64)
    requires
        k <= n,
        1 <= n <= 15,
        bits < (1u64 << ((4 * n) as u64)),
    ensures
        rot(rot(bits, n, k as int), n, n - k) == bits,
{
    lemma_rot_closed(bits, n, k);
    lemma_rot_fits(bits, n, k as int);
    lemma_rot_closed(rot(bits, n, k as int), n, (n - k) as u64);
    assert(rot_closed(rot_closed(bits, n, k), n, (n - k) as u64) == bits) by (bit_vector)
        requires
            k <= n,
            1 <= n <= 15,
            bits < (1u64 << ((4 * n) as u64)),
    ;
}

/// One rotation step permutes the pieces of a pattern, so it preserves the
/// total slot count.
pub proof fn lemma_rot1_slots(bits: u64, n: u64)
    requires
        1 <= n <= 15,
        bits < (1u64 << ((4 * n) as u64)),
    ensures
        slot_sum(rot1(bits, n), n as int) == slot_sum(bits, n as int),
{
    let r = rot1(bits, n);
    assert forall|i: u64| i < n - 1 implies nib(r, i) == nib(bits, (i + 1) as u64) by {
        assert(i < n - 1 && 1 <= n <= 15 && bits < (1u64 << ((4 * n) as u64)) ==> nib(
            rot1(bits, n),
            i,
        ) == nib(bits, (i + 1) as u64)) by (bit_vector);
    }
    assert(nib(r, (n - 1) as u64) == nib(bits, 0)) by (bit_vector)
        requires
            1 <= n <= 15,
            bits < (1u64 << ((4 * n) as u64)),
            r == rot1(bits, n),
    ;
    lemma_slot_sum_offset(r, bits, 1, n - 1);
    assert(slot_sum(bits, 0) == 0);
    assert(slot_sum(bits, 1) == nib_slots(nib(bits, 0)));
    assert(slot_sum(r, n as int) == slot_sum(r, n - 1) + nib_slots(nib(r, (n - 1) as u64)));
}

/// Any number of rotation steps preserves the total slot count.
pub proof fn lemma_rot_slots(bits: u64, n: u64, k: int)
    requires
        1 <= n <= 15,
        0 <= k,
        bits < (1u64 << ((4 * n) as u64)),
    ensures
        slot_sum(rot(bits, n, k), n as int) == slot_sum(bits, n as int),
    decreases k,
{
    if k > 0 {
        lemma_rot_slots(bits, n, k - 1);
        lemma_rot_fits(bits, n, k - 1);
        lemma_rot1_slots(rot(bits, n, k - 1), n);
    }
}

/// After `t` rotation steps of an `n`-piece pattern, the lowest piece is the
/// original piece `t` and the piece above it is the original piece `t + 1`,
/// wrapping around cyclically.
pub proof fn lemma_rot_low_nibs(bits: u64, n: u64, t: u64)
    requires
        2 <= n <= 15,
        t < n,
        bits < (1u64 << ((4 * n) as u64)),
    ensures
        nib(rot(bits, n, t as int), 0) == nib(bits, t),
        nib(rot(bits, n, t as int), 1) == nib(
            bits,
            if t + 1 == n {
                0
            } else {
                (t + 1) as u64
            },
        ),
{
    lemma_rot_closed(bits, n, t);
    assert(nib(rot_closed(bits, n, t), 0) == nib(bits, t) && nib(rot_closed(bits, n, t), 1) == nib(
        bits,
        if t + 1 == n {
            0
        } else {
            (t + 1) as u64
        },
    )) by (bit_vector)
        requires
            2 <= n <= 15,
            t < n,
            bits < (1u64 << ((4 * n) as u64)),
    ;
}

/// Search the low end of a packed pattern for the boundary after which the
/// pieces seen so far occupy exactly `target` slots.  Returns the low pieces,
/// their count, and the remaining high pieces, or `None` when a big piece
/// straddles every candidate boundary.
pub fn extract_half(bits: u64, target: u32) -> (r: Option<(u64, u32, u64)>)
    requires
        1 <= target <= 15,
    ensures
        match r {
            Some(parts) => {
                &&& half_len(bits, target as int) == Some(parts.1 as int)
                &&& 1 <= parts.1 <= target
                &&& slot_sum(bits, parts.1 as int) == target
                &&& parts.2 == bits >> ((4 * parts.1) as u64)
                &&& parts.0 == bits & low_mask(parts.1 as u64)
                &&& parts.0 < (1u64 << ((4 * parts.1) as u64))
                &&& ((parts.2 << ((4 * parts.1) as u64)) | parts.0) == bits
                &&& slot_sum(parts.0, parts.1 as int) == target
            },
            None => half_len(bits, target as int) is None,
        },
{
    let mut k: u32 = 0;
    let mut sum: u32 = 0;
    while sum < target
        invariant
            1 <= target <= 15,
            k <= sum,
            sum == slot_sum(bits, k as int),
            sum <= target + 1,
            forall|j: int| 0 <= j < k ==> slot_sum(bits, j) < target,
        decreases target - k,
    {
        proof {
            lemma_slot_sum_bounds(bits, k as int);
        }
        let piece = (bits >> (4 * k)) & 0xF;
        proof {
            assert(piece == nib(bits, k as u64));
        }
        if piece & 2 == 2 {
            sum = sum + 2;
        } else {
            sum = sum + 1;
        }
        k = k + 1;
        proof {
            assert(sum == slot_sum(bits, k as int));
        }
    }
    if sum == target {
        proof {
            lemma_slot_sum_bounds(bits, k as int);
            lemma_half_len_from_found(bits, target as int, 1, k as int);
            lemma_split_recompose(bits, k as u64);
        }
        let shift = 4 * k;
        let remaining = bits >> shift;
        let pieces = bits & (((1u64 << shift) as u64) - 1);
        proof {
            assert((1u64 << ((4 * k) as u64)) >= 1) by (bit_vector)
                requires
                    k <= 15u32,
            ;
            assert forall|i: u64| i < k implies nib(pieces, i) == nib(bits, i) by {
                lemma_nib_low(bits, k as u64, i);
            }
            lemma_slot_sum_offset(pieces, bits, 0, k as int);
        }
        Some((pieces, k, remaining))
    } else {
        proof {
            assert forall|j: int| 1 <= j <= target implies slot_sum(bits, j) != target by {
                if j < k {
                } else {
                    lemma_slot_sum_mono(bits, k as int, j);
                }
            }
            lemma_half_len_from_none(bits, target as int, 1);
        }
        None
    }
}

} // verus!
