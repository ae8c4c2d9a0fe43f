//! A memory-dense set of packed configuration keys, partitioned by a mixed
//! key prefix into many small buckets.

use std::collections::HashSet;
use vstd::prelude::*;

verus! {

broadcast use vstd::std_specs::hash::group_hash_axioms;

/// How many leading bits of a mixed key select its bucket.
pub const PREFIX_BITS: u32 = 16;

/// Left rotation of a word by five bits.
pub open spec fn rotl5(x: u16) -> u16 {
    (x << 5) | (x >> 11)
}

/// Left rotation of a word by fourteen bits.
pub open spec fn rotl14(x: u16) -> u16 {
    (x << 14) | (x >> 2)
}

/// Truncating word addition.
pub open spec fn wadd(a: u16, b: u16) -> u16 {
    ((a + b) % 0x10000) as u16
}

/// Truncating word subtraction.
pub open spec fn wsub(a: u16, b: u16) -> u16 {
    ((a - b + 0x10000) % 0x10000) as u16
}

/// One mixing round over the four words of a key.
pub open spec fn mix_round(w: (u16, u16, u16, u16)) -> (u16, u16, u16, u16) {
    (wadd(wadd(w.1 ^ w.2, w.3), rotl5(w.0)), w.0, rotl14(w.1), w.2)
}

/// The inverse of one mixing round.
pub open spec fn unmix_round(w: (u16, u16, u16, u16)) -> (u16, u16, u16, u16) {
    let a = w.1;
    let b = (w.2 >> 14) | (w.2 << 2);
    let c = w.3;
    (a, b, c, wsub(wsub(w.0, rotl5(a)), b ^ c))
}

/// `k` mixing rounds.
pub open spec fn mix_rounds(w: (u16, u16, u16, u16), k: int) -> (u16, u16, u16, u16)
    decreases k,
{
    if k <= 0 {
        w
    } else {
        mix_round(mix_rounds(w, k - 1))
    }
}

/// The four words of a key, lowest first.
pub open spec fn key_words(v: u64) -> (u16, u16, u16, u16) {
    (
        (v & 0xFFFF) as u16,
        ((v >> 16) & 0xFFFF) as u16,
        ((v >> 32) & 0xFFFF) as u16,
        ((v >> 48) & 0xFFFF) as u16,
    )
}

/// A key reassembled from its four words.
pub open spec fn words_key(w: (u16, u16, u16, u16)) -> u64 {
    (w.0 as u64) | ((w.1 as u64) << 16) | ((w.2 as u64) << 32) | ((w.3 as u64) << 48)
}

/// The mixed form of a key: four rounds of word mixing, slightly inspired by
/// the core of SHA-1.  Mixing spreads clustered keys over the buckets.
pub open spec fn spec_stir(v: u64) -> u64 {
    words_key(mix_rounds(key_words(v), 4))
}

/// Undo `k` mixing rounds.
pub open spec fn unmix_rounds(w: (u16, u16, u16, u16), k: int) -> (u16, u16, u16, u16)
    decreases k,
{
    if k <= 0 {
        w
    } else {
        unmix_rounds(unmix_round(w), k - 1)
    }
}

/// One mixing round is undone by its inverse round.
proof fn lemma_unmix_round(w: (u16, u16, u16, u16))
    ensures
        unmix_round(mix_round(w)) == w,
{
    let a = w.0;
    let b = w.1;
    let c = w.2;
    let d = w.3;
    assert(((((b << 14) | (b >> 2)) >> 14) | (((b << 14) | (b >> 2)) << 2)) == b) by (bit_vector);
    assert(wsub(wsub(wadd(wadd(b ^ c, d), rotl5(a)), rotl5(a)), b ^ c) == d) by (bit_vector);
}

/// Undoing `k` rounds after performing them restores the original words.
proof fn lemma_unmix_rounds(w: (u16, u16, u16, u16), k: int)
    requires
        0 <= k,
    ensures
        unmix_rounds(mix_rounds(w, k), k) == w,
    decreases k,
{
    if k > 0 {
        lemma_unmix_rounds(w, k - 1);
        lemma_unmix_round(mix_rounds(w, k - 1));
        assert(unmix_rounds(mix_rounds(w, k), k) == unmix_rounds(
            unmix_round(mix_rounds(w, k)),
            k - 1,
        ));
    }
}

/// Law: mixing is injective, because it can be undone.  Two keys with the
/// same mixed form are the same key.
pub proof fn lemma_stir_injective(x: u64, y: u64)
    requires
        spec_stir(x) == spec_stir(y),
    ensures
        x == y,
{
    lemma_unmix_rounds(key_words(x), 4);
    lemma_unmix_rounds(key_words(y), 4);
    let wx = mix_rounds(key_words(x), 4);
    let wy = mix_rounds(key_words(y), 4);
    let (xa, xb, xc, xd) = wx;
    let (ya, yb, yc, yd) = wy;
    assert(((xa as u64) | ((xb as u64) << 16) | ((xc as u64) << 32) | ((xd as u64) << 48)) == ((
    ya as u64) | ((yb as u64) << 16) | ((yc as u64) << 32) | ((yd as u64) << 48)) ==> (xa == ya
        && xb == yb && xc == yc && xd == yd)) by (bit_vector);
    assert(wx == wy);
    assert(unmix_rounds(wx, 4) == key_words(x) && unmix_rounds(wy, 4) == key_words(y));
    let (ka, kb, kc, kd) = key_words(x);
    assert(key_words(x) == key_words(y));
    let (la, lb, lc, ld) = key_words(y);
    assert(ka == la && kb == lb && kc == lc && kd == ld);
    assert(ka == (x & 0xFFFF) as u16 && kb == ((x >> 16) & 0xFFFF) as u16 && kc == ((x >> 32)
        & 0xFFFF) as u16 && kd == ((x >> 48) & 0xFFFF) as u16);
    assert((((x & 0xFFFF) as u16) == ((y & 0xFFFF) as u16) && (((x >> 16) & 0xFFFF) as u16) == (((y
        >> 16) & 0xFFFF) as u16) && (((x >> 32) & 0xFFFF) as u16) == (((y >> 32) & 0xFFFF) as u16)
        && (((x >> 48) & 0xFFFF) as u16) == (((y >> 48) & 0xFFFF) as u16)) ==> x == y)
        by (bit_vector);
}

/// Truncating word addition agrees with the machine's wrapping addition.
proof fn lemma_wadd(x: u16, y: u16)
    ensures
        vstd::wrapping::u16_specs::wrapping_add(x, y) == wadd(x, y),
{
}

/// Mix a key before bucketing it.
fn stir(v: u64) -> (r: u64)
    ensures
        r == spec_stir(v),
{
    let mut a = (v & 0xFFFF) as u16;
    let mut b = ((v >> 16) & 0xFFFF) as u16;
    let mut c = ((v >> 32) & 0xFFFF) as u16;
    let mut d = ((v >> 48) & 0xFFFF) as u16;
    proof {
        assert((v & 0xFFFF) < 0x10000 && ((v >> 16) & 0xFFFF) < 0x10000 && ((v >> 32) & 0xFFFF)
            < 0x10000 && ((v >> 48) & 0xFFFF) < 0x10000) by (bit_vector);
    }

    let mut round: u32 = 0;
    while round < 4
        invariant
            0 <= round <= 4,
            (a, b, c, d) == mix_rounds(key_words(v), round as int),
        decreases 4 - round,
    {
        // Slightly inspired by the core of SHA-1
        let new_a = (b ^ c).wrapping_add(d).wrapping_add((a << 5) | (a >> 11));
        let new_b = a;
        let new_c = (b << 14) | (b >> 2);
        let new_d = c;
        proof {
            lemma_wadd(b ^ c, d);
            lemma_wadd(wadd(b ^ c, d), (a << 5) | (a >> 11));
            assert(new_a == wadd(wadd(b ^ c, d), rotl5(a)));
        }

        a = new_a;
        b = new_b;
        c = new_c;
        d = new_d;
        round = round + 1;
    }

    let r = (a as u64) | ((b as u64) << 16) | ((c as u64) << 32) | ((d as u64) << 48);
    r
}

/// A set of packed configuration keys, split over `2^16` buckets by the top
/// bits of the mixed key so that each bucket stays small.
#[derive(Debug)]
pub struct PrefixSet {
    /// The buckets; bucket `p` holds the mixed keys whose top bits are `p`,
    /// with those bits cleared.
    pub children: Vec<HashSet<u64>>,
}

impl PrefixSet {
    /// The buckets are all present.
    pub open spec fn wf(self) -> bool {
        self.children@.len() == 0x10000
    }

    /// Whether the mixed key `w` is stored.
    pub open spec fn stirred_contains(self, w: u64) -> bool {
        self.children@[(w >> 48) as int]@.contains(w ^ ((w >> 48) << 48))
    }

    /// The set of keys held: every key whose mixed form is stored.
    pub open spec fn key_set(self) -> Set<u64> {
        Set::new(|k: u64| self.stirred_contains(spec_stir(k)))
    }

    /// An empty set with all its buckets ready.
    pub fn new() -> (r: Self)
        ensures
            r.wf(),
            r.key_set() == Set::<u64>::empty(),
    {
        let mut children: Vec<HashSet<u64>> = Vec::new();
        let mut i: usize = 0;
        while i < 0x10000
            invariant
                0 <= i <= 0x10000,
                children@.len() == i,
                forall|p: int| 0 <= p < i ==> (#[trigger] children@[p])@ == Set::<u64>::empty(),
            decreases 0x10000 - i,
        {
            children.push(HashSet::new());
            i = i + 1;
        }
        let r = PrefixSet { children };
        proof {
            assert forall|k: u64| !r.key_set().contains(k) by {
                let w = spec_stir(k);
                assert((w >> 48) < 0x10000) by (bit_vector);
            }
            assert(r.key_set() =~= Set::<u64>::empty());
        }
        r
    }

    /// Record a key.  Returns true exactly when the key was not yet held:
    /// the first insert of each distinct key, and only that one, reports it
    /// as new.
    pub fn insert(&mut self, value: u64) -> (r: bool)
        requires
            old(self).wf(),
        ensures
            final(self).wf(),
            r == !old(self).key_set().contains(value),
            final(self).key_set() == old(self).key_set().insert(value),
    {
        let ghost orig = *old(self);
        let mixed = stir(value);
        let prefix = mixed >> (64 - PREFIX_BITS);
        let suffix = mixed ^ (prefix << (64 - PREFIX_BITS));
        proof {
            assert((mixed >> 48) < 0x10000) by (bit_vector);
        }
        let r = self.children[prefix as usize].insert(suffix);
        proof {
            broadcast use vstd::std_specs::hash::axiom_u64_obeys_hash_table_key_model;
            broadcast use vstd::std_specs::hash::axiom_random_state_builds_valid_hashers;

            assert(self.stirred_contains(spec_stir(value)));
            assert forall|k: u64| #[trigger]
                self.key_set().contains(k) == orig.key_set().insert(value).contains(k) by {
                let w = spec_stir(k);
                assert((w >> 48) < 0x10000) by (bit_vector);
                if k != value {
                    lemma_stir_distinct(k, value);
                    let wv = spec_stir(value);
                    if (w >> 48) == (wv >> 48) {
                        assert((w ^ ((w >> 48) << 48)) != (wv ^ ((wv >> 48) << 48)))
                            by (bit_vector)
                            requires
                                w != wv,
                                (w >> 48) == (wv >> 48),
                        ;
                    }
                }
            }
            assert(self.key_set() =~= orig.key_set().insert(value));
        }
        r
    }

    /// The number of distinct keys held, summed over the buckets.  The sum
    /// is reported exactly whenever it fits the machine word.
    pub fn len(&self) -> (r: usize)
        requires
            self.wf(),
        ensures
            spec_total_len(self.children@, self.children@.len() as int) <= usize::MAX
                ==> r == spec_total_len(self.children@, self.children@.len() as int),
    {
        let mut total: usize = 0;
        let mut i: usize = 0;
        let mut exact: bool = true;
        while i < self.children.len()
            invariant
                self.wf(),
                0 <= i <= self.children@.len(),
                exact ==> total == spec_total_len(self.children@, i as int),
                !exact ==> spec_total_len(self.children@, i as int) > usize::MAX,
                spec_total_len(self.children@, i as int) >= total,
            decreases self.children@.len() - i,
        {
            let bucket_len = self.children[i].len();
            proof {
                lemma_total_len_mono(self.children@, i as int);
            }
            match total.checked_add(bucket_len) {
                Some(t) => {
                    total = t;
                },
                None => {
                    exact = false;
                    proof {
                        assert(total + bucket_len > usize::MAX);
                    }
                },
            }
            i = i + 1;
        }
        total
    }
}

/// Distinct keys have distinct mixed forms.
proof fn lemma_stir_distinct(x: u64, y: u64)
    requires
        x != y,
    ensures
        spec_stir(x) != spec_stir(y),
{
    if spec_stir(x) == spec_stir(y) {
        lemma_stir_injective(x, y);
    }
}

/// The summed size of the first `m` buckets.
pub open spec fn spec_total_len(buckets: Seq<HashSet<u64>>, m: int) -> int
    decreases m,
{
    if m <= 0 {
        0
    } else {
        spec_total_len(buckets, m - 1) + buckets[m - 1]@.len()
    }
}

/// Bucket sums only grow as more buckets are counted.
proof fn lemma_total_len_mono(buckets: Seq<HashSet<u64>>, m: int)
    requires
        0 <= m,
    ensures
        spec_total_len(buckets, m + 1) >= spec_total_len(buckets, m),
{
}

} // verus!
