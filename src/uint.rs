//! A 256-bit unsigned integer held as 32 little-endian bytes, with its
//! arithmetic done by alloy's `U256`.

use vstd::arithmetic::power::pow;
use vstd::prelude::*;

verus! {

/// The value of a little-endian byte string.
pub open spec fn le_value(s: Seq<u8>) -> nat
    decreases s.len(),
{
    if s.len() == 0 {
        0
    } else {
        s[0] as nat + 256 * le_value(s.drop_first())
    }
}

/// The `len` low-order bytes of `n`, least significant first.
pub open spec fn le_bytes(n: nat, len: nat) -> Seq<u8>
    decreases len,
{
    if len == 0 {
        Seq::empty()
    } else {
        seq![(n % 256) as u8] + le_bytes(n / 256, (len - 1) as nat)
    }
}

/// One more than the largest 256-bit value: `2^256`.
pub open spec fn u256_modulus() -> nat {
    0x1_0000_0000_0000_0000 * 0x1_0000_0000_0000_0000 * 0x1_0000_0000_0000_0000
        * 0x1_0000_0000_0000_0000
}

/// `2^256` is `256^32`.
pub proof fn lemma_u256_modulus()
    ensures
        pow(256, 32) == u256_modulus(),
{
    reveal_with_fuel(pow, 33);
}

/// A byte string of length `k` encodes a value below `256^k`.
pub proof fn lemma_le_value_bound(s: Seq<u8>)
    ensures
        le_value(s) < pow(256, s.len()),
    decreases s.len(),
{
    reveal(pow);
    if s.len() > 0 {
        lemma_le_value_bound(s.drop_first());
        let p = pow(256, (s.len() - 1) as nat);
        let r = le_value(s.drop_first());
        let b = s[0] as int;
        assert(pow(256, s.len()) == 256 * p);
        assert(b + 256 * r < 256 * p) by (nonlinear_arith)
            requires
                0 <= b < 256,
                0 <= r < p,
        ;
    }
}

/// Encoding a value that fits and reading it back gives the value.
pub proof fn lemma_le_value_of_bytes(n: nat, len: nat)
    requires
        n < pow(256, len),
    ensures
        le_bytes(n, len).len() == len,
        le_value(le_bytes(n, len)) == n,
    decreases len,
{
    reveal(pow);
    if len > 0 {
        let p = pow(256, (len - 1) as nat);
        assert(pow(256, len) == 256 * p);
        assert(n / 256 < p) by (nonlinear_arith)
            requires
                n < 256 * p,
        ;
        lemma_le_value_of_bytes(n / 256, (len - 1) as nat);
        let s = le_bytes(n, len);
        assert(s.drop_first() =~= le_bytes(n / 256, (len - 1) as nat));
        assert(s[0] == n % 256);
        assert(n == n % 256 + 256 * (n / 256)) by (nonlinear_arith);
    }
}

/// Reading a byte string and encoding the value at the same length gives the
/// byte string back.
pub proof fn lemma_le_bytes_of_value(s: Seq<u8>)
    ensures
        le_bytes(le_value(s), s.len()) == s,
    decreases s.len(),
{
    if s.len() > 0 {
        let r = le_value(s.drop_first());
        let b = s[0] as nat;
        let n = b + 256 * r;
        assert(n % 256 == b && n / 256 == r) by (nonlinear_arith)
            requires
                n == b + 256 * r,
                b < 256,
        ;
        lemma_le_bytes_of_value(s.drop_first());
        assert(le_bytes(n, s.len()) =~= s);
    }
}

/// Reading a byte string from position `k` takes the byte there and `256`
/// times what follows it.
pub proof fn lemma_le_value_step(s: Seq<u8>, k: int)
    requires
        0 <= k < s.len(),
    ensures
        le_value(s.subrange(k, s.len() as int)) == s[k] as nat + 256 * le_value(
            s.subrange(k + 1, s.len() as int),
        ),
{
    assert(s.subrange(k, s.len() as int).drop_first() =~= s.subrange(k + 1, s.len() as int));
}

/// A byte string splits at `k` into its low part and `256^k` times its high
/// part.
pub proof fn lemma_le_value_split(s: Seq<u8>, k: int)
    requires
        0 <= k <= s.len(),
    ensures
        le_value(s) == le_value(s.subrange(0, k)) + pow(256, k as nat) * le_value(
            s.subrange(k, s.len() as int),
        ),
    decreases k,
{
    reveal(pow);
    if k == 0 {
        assert(s.subrange(0, 0) =~= Seq::<u8>::empty());
        assert(s.subrange(0, s.len() as int) =~= s);
    } else {
        let rest = s.drop_first();
        lemma_le_value_split(rest, k - 1);
        assert(s.subrange(0, k).drop_first() =~= rest.subrange(0, k - 1));
        assert(s.subrange(k, s.len() as int) =~= rest.subrange(k - 1, rest.len() as int));
        let a = le_value(rest.subrange(0, k - 1));
        let b = le_value(rest.subrange(k - 1, rest.len() as int));
        let p = pow(256, (k - 1) as nat);
        assert(256 * (a + p * b) == 256 * a + (256 * p) * b) by (nonlinear_arith);
    }
}

/// The value of the first `k` bytes is the value of the whole modulo `256^k`:
/// a narrower reading is a truncation of a wider one.
pub proof fn lemma_le_value_prefix(s: Seq<u8>, k: int)
    requires
        0 <= k <= s.len(),
    ensures
        le_value(s.subrange(0, k)) == le_value(s) as int % pow(256, k as nat),
{
    lemma_le_value_split(s, k);
    lemma_le_value_bound(s.subrange(0, k));
    vstd::arithmetic::power::lemma_pow_positive(256, k as nat);
    vstd::arithmetic::div_mod::lemma_fundamental_div_mod_converse(
        le_value(s) as int,
        pow(256, k as nat),
        le_value(s.subrange(k, s.len() as int)) as int,
        le_value(s.subrange(0, k)) as int,
    );
}

/// `256^8 == 2^64` and `256^16 == 2^128`.
pub proof fn lemma_word_powers()
    ensures
        pow(256, 8) == 0x1_0000_0000_0000_0000,
        pow(256, 16) == 0x1_0000_0000_0000_0000_0000_0000_0000_0000,
{
    reveal_with_fuel(pow, 17);
}

/// A byte string of all `0xff` encodes the largest value of its length.
pub proof fn lemma_le_value_all_ones(s: Seq<u8>)
    requires
        forall|j: int| 0 <= j < s.len() ==> s[j] == 0xffu8,
    ensures
        le_value(s) == pow(256, s.len()) - 1,
    decreases s.len(),
{
    reveal(pow);
    if s.len() > 0 {
        lemma_le_value_all_ones(s.drop_first());
    }
}

/// An unsigned 256-bit integer.
#[derive(Clone, Copy, Debug, PartialEq, Eq)]
pub struct U256 {
    bytes: [u8; 32],
}

impl View for U256 {
    type V = nat;

    closed spec fn view(&self) -> nat {
        le_value(self.bytes@)
    }
}

impl U256 {
    /// The little-endian bytes of the value.
    pub closed spec fn spec_bytes(&self) -> Seq<u8> {
        self.bytes@
    }

    /// Every value is below `2^256`, and its bytes are its encoding.
    pub proof fn lemma_wf(&self)
        ensures
            self@ < u256_modulus(),
            self.spec_bytes() == le_bytes(self@, 32),
            self.spec_bytes().len() == 32,
    {
        lemma_u256_modulus();
        lemma_le_value_bound(self.bytes@);
        lemma_le_bytes_of_value(self.bytes@);
    }

    /// The integer whose little-endian encoding is `bytes`.
    pub fn from_le_bytes(bytes: [u8; 32]) -> (r: U256)
        ensures
            r@ == le_value(bytes@),
            r.spec_bytes() == bytes@,
    {
        U256 { bytes }
    }

    /// The 32-byte little-endian encoding of the value.
    pub fn to_le_bytes(&self) -> (r: [u8; 32])
        ensures
            r@ == le_bytes(self@, 32),
            r@ == self.spec_bytes(),
    {
        proof {
            self.lemma_wf();
        }
        self.bytes
    }

    /// The largest value, `2^256 - 1`.
    pub fn max_value() -> (r: U256)
        ensures
            r@ == u256_modulus() - 1,
    {
        let bytes: [u8; 32] = [0xffu8; 32];
        proof {
            lemma_le_value_all_ones(bytes@);
            lemma_u256_modulus();
        }
        U256 { bytes }
    }

    /// The integer `v`.
    ///
    /// Relies on ruint's `From<u64>` for `Uint` (alloy's `U256`) and its
    /// `to_le_bytes`: a `u64` always fits, and keeps its value.
    #[verifier::external_body]
    pub(crate) fn from_u64(v: u64) -> (r: U256)
        ensures
            r@ == v as nat,
    {
        U256 { bytes: alloy::primitives::U256::from(v).to_le_bytes() }
    }

    /// The sum, modulo `2^256`.
    ///
    /// Relies on ruint's `Uint::wrapping_add`, which drops the carry out of
    /// the top limb.
    #[verifier::external_body]
    pub(crate) fn wrapping_add(&self, rhs: &U256) -> (r: U256)
        ensures
            r@ == (self@ + rhs@) % u256_modulus(),
    {
        let a = alloy::primitives::U256::from_le_bytes(self.bytes);
        let b = alloy::primitives::U256::from_le_bytes(rhs.bytes);
        U256 { bytes: a.wrapping_add(b).to_le_bytes() }
    }

    /// The difference, where it is not negative.
    ///
    /// Relies on ruint's `Uint::checked_sub`: `None` exactly when the
    /// subtraction borrows out of the top limb, that is when `rhs > self`.
    #[verifier::external_body]
    pub(crate) fn checked_sub(&self, rhs: &U256) -> (r: Option<U256>)
        ensures
            r is Some <==> self@ >= rhs@,
            r is Some ==> r->Some_0@ == self@ - rhs@,
    {
        let a = alloy::primitives::U256::from_le_bytes(self.bytes);
        let b = alloy::primitives::U256::from_le_bytes(rhs.bytes);
        a.checked_sub(b).map(|d| U256 { bytes: d.to_le_bytes() })
    }

    /// The remainder of the division by a nonzero `rhs`.
    ///
    /// Relies on ruint's `Uint::wrapping_rem`, which panics only on a zero
    /// divisor.
    #[verifier::external_body]
    pub(crate) fn wrapping_rem(&self, rhs: &U256) -> (r: U256)
        requires
            rhs@ > 0,
        ensures
            r@ == self@ % rhs@,
    {
        let a = alloy::primitives::U256::from_le_bytes(self.bytes);
        let b = alloy::primitives::U256::from_le_bytes(rhs.bytes);
        U256 { bytes: a.wrapping_rem(b).to_le_bytes() }
    }

    /// Whether the value is zero.
    ///
    /// Relies on ruint's `Uint::is_zero`.
    #[verifier::external_body]
    pub(crate) fn is_zero(&self) -> (r: bool)
        ensures
            r == (self@ == 0),
    {
        alloy::primitives::U256::from_le_bytes(self.bytes).is_zero()
    }
}

} // verus!
