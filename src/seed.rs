//! The 32-byte seed, its integer views, and bounded derivation from it.

use crate::range::{
    fit_to_range, lower_bound, lower_of, range_ok, range_value, range_width, upper_bound, SeedError,
};
use crate::uint::{le_bytes, le_value, u256_modulus, U256};
use vstd::arithmetic::power::pow;
use vstd::prelude::*;
use vstd::string::StringSliceAdditionalSpecFns;

verus! {

/// The byte value that fills a short input up to 32 bytes.
pub const PAD_BYTE: u8 = 0x01;

/// The seed that a byte string gives: its first 32 bytes, or all of it
/// followed by `0x01` bytes up to 32.
pub open spec fn padded(b: Seq<u8>) -> Seq<u8> {
    Seq::new(32, |j: int| if j < b.len() { b[j] } else { PAD_BYTE })
}

/// The Keccak-256 digest of `data`.
pub uninterp spec fn keccak256_of(data: Seq<u8>) -> Seq<u8>;

/// The bytes hashed for the `i`-th derived value: the seed's integer plus `i`,
/// modulo `2^256`, in little-endian order.
pub open spec fn derivation_input(seed: Seq<u8>, i: nat) -> Seq<u8> {
    le_bytes((le_value(seed) + i) % u256_modulus(), 32)
}

/// The `i`-th value derived from `seed` into `[lo, hi)`: the digest of the
/// derivation input, read as a little-endian integer and mapped into the range.
pub open spec fn derived_value(seed: Seq<u8>, i: nat, lo: nat, hi: nat) -> nat {
    range_value(le_value(keccak256_of(derivation_input(seed, i))), lo, hi)
}

/// The seeds of the first `amount` derived values.
pub open spec fn derived_seeds(seed: Seq<u8>, amount: nat, lo: nat, hi: nat) -> Seq<Seq<u8>> {
    Seq::new(amount, |k: int| le_bytes(derived_value(seed, k as nat, lo, hi), 32))
}

/// A seed generator holding a fixed 32-byte seed.
#[derive(Clone, Copy, Debug, PartialEq, Eq)]
pub struct RandSeed {
    seed: [u8; 32],
}

impl View for RandSeed {
    type V = Seq<u8>;

    closed spec fn view(&self) -> Seq<u8> {
        self.seed@
    }
}

/// Writes into `target` the seed that `seed` gives.
fn fill_bytes(seed: &[u8], target: &mut [u8; 32])
    ensures
        final(target)@ == padded(seed@),
{
    let n = seed.len();
    let mut k: usize = 0;
    while k < 32
        invariant
            n == seed@.len(),
            k <= 32,
            forall|j: int| 0 <= j < k ==> target@[j] == padded(seed@)[j],
        decreases 32 - k,
    {
        if k < n {
            target[k] = seed[k];
        } else {
            target[k] = PAD_BYTE;
        }
        k = k + 1;
    }
    assert(target@ =~= padded(seed@));
}

} // verus!

verus! {

/// 32 bytes drawn from the thread-local random generator.
///
/// Relies on `rand::random` (rand 0.8) for `[u8; 32]`. Nothing is known of
/// the bytes.
#[verifier::external_body]
fn random_bytes() -> (r: [u8; 32]) {
    rand::random::<[u8; 32]>()
}

/// The Keccak-256 digest of `data`.
///
/// Relies on alloy's `keccak256`, a hash of the input bytes alone.
#[verifier::external_body]
fn keccak256(data: &[u8; 32]) -> (r: [u8; 32])
    ensures
        r@ == keccak256_of(data@),
{
    alloy::primitives::keccak256(data).0
}

impl RandSeed {
    /// A generator with a random seed.
    pub fn new() -> (r: RandSeed)
        ensures
            r@.len() == 32,
    {
        RandSeed { seed: random_bytes() }
    }

    /// The generator whose seed is the first 32 bytes of `seed_bytes`, or all
    /// of them followed by `0x01` bytes up to 32.
    pub fn from_bytes(seed_bytes: &[u8]) -> (r: RandSeed)
        ensures
            r@ == padded(seed_bytes@),
    {
        let mut seed_arr: [u8; 32] = [0u8; 32];
        fill_bytes(seed_bytes, &mut seed_arr);
        RandSeed { seed: seed_arr }
    }

    /// The generator that the UTF-8 bytes of `seed` give, as `from_bytes`.
    pub fn from_str(seed: &str) -> (r: RandSeed)
        ensures
            r@ == padded(seed.spec_bytes()),
    {
        RandSeed::from_bytes(seed.as_bytes())
    }

    /// The generator whose seed is the little-endian encoding of `seed`.
    pub fn from_u256(seed: U256) -> (r: RandSeed)
        ensures
            r@ == le_bytes(seed@, 32),
    {
        RandSeed { seed: seed.to_le_bytes() }
    }

    /// The 32 bytes of the seed.
    pub fn as_bytes(&self) -> (r: &[u8])
        ensures
            r@ == self@,
    {
        self.seed.as_slice()
    }

    /// The first 8 bytes of the seed, read as a little-endian integer.
    pub fn as_u64(&self) -> (r: u64)
        ensures
            r as nat == le_value(self@.subrange(0, 8)),
    {
        let ghost p = self.seed@.subrange(0, 8);
        let mut acc: u64 = 0;
        let mut k: usize = 8;
        proof {
            crate::uint::lemma_word_powers();
        }
        while k > 0
            invariant
                k <= 8,
                p == self.seed@.subrange(0, 8),
                pow(256, 8) == 0x1_0000_0000_0000_0000,
                acc as nat == le_value(p.subrange(k as int, 8)),
            decreases k,
        {
            k = k - 1;
            proof {
                crate::uint::lemma_le_value_step(p, k as int);
                crate::uint::lemma_le_value_bound(p.subrange(k as int, 8));
                vstd::arithmetic::power::lemma_pow_increases(256, (8 - k) as nat, 8);
            }
            acc = acc * 256 + self.seed[k] as u64;
        }
        proof {
            assert(p.subrange(0, 8) =~= p);
        }
        acc
    }

    /// The first 16 bytes of the seed, read as a little-endian integer.
    pub fn as_u128(&self) -> (r: u128)
        ensures
            r as nat == le_value(self@.subrange(0, 16)),
    {
        let ghost p = self.seed@.subrange(0, 16);
        let mut acc: u128 = 0;
        let mut k: usize = 16;
        proof {
            crate::uint::lemma_word_powers();
        }
        while k > 0
            invariant
                k <= 16,
                p == self.seed@.subrange(0, 16),
                pow(256, 16) == 0x1_0000_0000_0000_0000_0000_0000_0000_0000,
                acc as nat == le_value(p.subrange(k as int, 16)),
            decreases k,
        {
            k = k - 1;
            proof {
                crate::uint::lemma_le_value_step(p, k as int);
                crate::uint::lemma_le_value_bound(p.subrange(k as int, 16));
                vstd::arithmetic::power::lemma_pow_increases(256, (16 - k) as nat, 16);
            }
            acc = acc * 256 + self.seed[k] as u128;
        }
        proof {
            assert(p.subrange(0, 16) =~= p);
        }
        acc
    }

    /// The whole seed, read as a little-endian integer.
    pub fn as_u256(&self) -> (r: U256)
        ensures
            r@ == le_value(self@),
    {
        U256::from_le_bytes(self.seed)
    }

    /// The first `amount` values derived from the seed into `[min, max)`,
    /// where an absent `min` is 0 and an absent `max` is `2^256`; an error,
    /// and no value, where that range is empty.
    pub fn seed_values(&self, amount: usize, min: Option<U256>, max: Option<U256>) -> (r: Result<
        Vec<RandSeed>,
        SeedError,
    >)
        ensures
            r is Err <==> !range_ok(min, max),
            r matches Ok(v) ==> v@.len() == amount && forall|k: int|
                0 <= k < amount ==> #[trigger] v@[k]@ == derived_seeds(
                    self@,
                    amount as nat,
                    lower_bound(min),
                    upper_bound(max),
                )[k],
    {
        let lo = lower_of(&min);
        if let Err(e) = range_width(&lo, &max) {
            return Err(e);
        }
        let ghost lb = lower_bound(min);
        let ghost ub = upper_bound(max);
        let base = self.as_u256();
        let mut out: Vec<RandSeed> = Vec::new();
        let mut i: usize = 0;
        while i < amount
            invariant
                i <= amount,
                range_ok(min, max),
                lb == lower_bound(min),
                ub == upper_bound(max),
                base@ == le_value(self@),
                out@.len() == i,
                forall|k: int|
                    0 <= k < i ==> #[trigger] out@[k]@ == le_bytes(
                        derived_value(self@, k as nat, lb, ub),
                        32,
                    ),
            decreases amount - i,
        {
            let seed_num = base.wrapping_add(&U256::from_u64(i as u64));
            let digest = keccak256(&seed_num.to_le_bytes());
            let raw = U256::from_le_bytes(digest);
            match fit_to_range(&raw, &min, &max) {
                Ok(v) => out.push(RandSeed::from_u256(v)),
                Err(e) => return Err(e),
            }
            i = i + 1;
        }
        Ok(out)
    }
}

} // verus!

verus! {

impl Default for RandSeed {
    /// A generator with a random seed, as `RandSeed::new`.
    fn default() -> (r: RandSeed)
        ensures
            r@.len() == 32,
    {
        RandSeed::new()
    }
}

/// A byte string shorter than 32 gives a seed that starts with it and is
/// filled with `0x01` bytes after it.
pub proof fn lemma_from_bytes_short(b: Seq<u8>)
    requires
        b.len() < 32,
    ensures
        padded(b).len() == 32,
        padded(b).subrange(0, b.len() as int) == b,
        forall|j: int| b.len() <= j < 32 ==> #[trigger] padded(b)[j] == 0x01u8,
{
    assert(padded(b).subrange(0, b.len() as int) =~= b);
}

/// A byte string of 32 bytes or more gives a seed of its first 32 bytes.
pub proof fn lemma_from_bytes_long(b: Seq<u8>)
    requires
        b.len() >= 32,
    ensures
        padded(b) == b.subrange(0, 32),
{
    assert(padded(b) =~= b.subrange(0, 32));
}

/// Reading back the seed made from an integer gives the integer, and making
/// a seed from the integer of a seed gives the seed.
pub proof fn lemma_u256_round_trip(x: U256, s: RandSeed)
    ensures
        le_value(le_bytes(x@, 32)) == x@,
        le_bytes(le_value(s@), 32) == s@,
{
    x.lemma_wf();
    crate::uint::lemma_u256_modulus();
    crate::uint::lemma_le_value_of_bytes(x@, 32);
    crate::uint::lemma_le_bytes_of_value(s@);
}

/// A string gives the seed that its UTF-8 bytes give.
pub proof fn lemma_from_str_is_from_bytes(s: &str, b: Seq<u8>)
    requires
        b == s.spec_bytes(),
    ensures
        padded(s.spec_bytes()) == padded(b),
        b.len() < 32 ==> padded(s.spec_bytes()).subrange(0, b.len() as int) == b,
        b.len() >= 32 ==> padded(s.spec_bytes()) == b.subrange(0, 32),
{
    if b.len() < 32 {
        lemma_from_bytes_short(b);
    } else {
        lemma_from_bytes_long(b);
    }
}

/// Two generators with the same seed agree on every view and on every
/// derivation.
pub proof fn lemma_deterministic(a: RandSeed, b: RandSeed, amount: nat, lo: nat, hi: nat)
    requires
        a@ == b@,
    ensures
        le_value(a@.subrange(0, 8)) == le_value(b@.subrange(0, 8)),
        le_value(a@.subrange(0, 16)) == le_value(b@.subrange(0, 16)),
        le_value(a@) == le_value(b@),
        derived_seeds(a@, amount, lo, hi) == derived_seeds(b@, amount, lo, hi),
{
}

/// The 64-bit and 128-bit views are the 256-bit view modulo `2^64` and
/// `2^128`.
pub proof fn lemma_views_consistent(s: RandSeed)
    ensures
        pow(256, 8) == 0x1_0000_0000_0000_0000,
        pow(256, 16) == 0x1_0000_0000_0000_0000_0000_0000_0000_0000,
        le_value(s@.subrange(0, 8)) == le_value(s@) as int % pow(256, 8),
        le_value(s@.subrange(0, 16)) == le_value(s@) as int % pow(256, 16),
{
    crate::uint::lemma_word_powers();
    crate::uint::lemma_le_value_prefix(s@, 8);
    crate::uint::lemma_le_value_prefix(s@, 16);
}

/// A derivation over a nonempty range gives `amount` seeds, each of whose
/// integer lies in `[lo, hi)`.
pub proof fn lemma_derived_in_range(seed: Seq<u8>, amount: nat, lo: nat, hi: nat)
    requires
        lo < hi <= u256_modulus(),
    ensures
        derived_seeds(seed, amount, lo, hi).len() == amount,
        forall|k: int|
            0 <= k < amount ==> lo <= #[trigger] le_value(derived_seeds(seed, amount, lo, hi)[k])
                < hi,
{
    assert forall|k: int| 0 <= k < amount implies lo <= #[trigger] le_value(
        derived_seeds(seed, amount, lo, hi)[k],
    ) < hi by {
        let v = derived_value(seed, k as nat, lo, hi);
        crate::range::lemma_range_value_bounds(
            le_value(keccak256_of(derivation_input(seed, k as nat))),
            lo,
            hi,
        );
        crate::uint::lemma_u256_modulus();
        crate::uint::lemma_le_value_of_bytes(v, 32);
    }
}

} // verus!
