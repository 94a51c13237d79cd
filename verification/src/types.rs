//! The values the verifier works on: 256-bit integers, curve points, keys and proofs.
use vstd::prelude::*;

verus! {

/// A 256-bit unsigned integer held as four 64-bit limbs, least significant first.
#[derive(Clone, Copy, Debug, PartialEq, Eq)]
pub struct U256(pub [u64; 4]);

/// A point of the alt_bn128 curve over Fq, as its affine coordinates `[x, y]`
/// (the point at infinity is `[0, 0]`).
pub type G1 = [U256; 2];

/// A point of the alt_bn128 twist over Fq2, as `[x.re, x.im, y.re, y.im]`.
pub type G2 = [U256; 4];

/// A list of field elements, the public inputs of a proof.
pub type VU256 = Vec<U256>;

/// A Groth16 verification key.
#[derive(Clone, Debug, PartialEq, Eq)]
pub struct VK {
    pub alpha: G1,
    pub beta: G2,
    pub gamma: G2,
    pub delta: G2,
    pub ic: Vec<G1>,
}

/// What a verification key holds, with its `ic` points as a sequence.
pub struct VKModel {
    pub alpha: G1,
    pub beta: G2,
    pub gamma: G2,
    pub delta: G2,
    pub ic: Seq<G1>,
}

impl View for VK {
    type V = VKModel;

    open spec fn view(&self) -> VKModel {
        VKModel {
            alpha: self.alpha,
            beta: self.beta,
            gamma: self.gamma,
            delta: self.delta,
            ic: self.ic@,
        }
    }
}

/// A Groth16 proof.
#[derive(Clone, Copy, Debug, PartialEq, Eq)]
pub struct Proof {
    pub a: G1,
    pub b: G2,
    pub c: G1,
}

impl U256 {
    /// The integer that the limbs stand for.
    pub open spec fn value(self) -> nat {
        self.0[0] as nat + self.0[1] as nat * 0x1_0000_0000_0000_0000
            + self.0[2] as nat * 0x1_0000_0000_0000_0000 * 0x1_0000_0000_0000_0000
            + self.0[3] as nat * 0x1_0000_0000_0000_0000 * 0x1_0000_0000_0000_0000
            * 0x1_0000_0000_0000_0000
    }

    /// The integer zero.
    pub open spec fn spec_zero() -> U256 {
        U256([0u64, 0u64, 0u64, 0u64])
    }

    /// The integer one.
    pub open spec fn spec_one() -> U256 {
        U256([1u64, 0u64, 0u64, 0u64])
    }

    /// The integer zero.
    pub fn zero() -> (r: U256)
        ensures
            r == U256::spec_zero(),
            r.value() == 0,
    {
        U256([0, 0, 0, 0])
    }

    /// The integer one.
    pub fn one() -> (r: U256)
        ensures
            r == U256::spec_one(),
            r.value() == 1,
    {
        U256([1, 0, 0, 0])
    }
}

/// The point `[0, 0]`, which stands for the point at infinity.
pub open spec fn g1_zero() -> G1 {
    [U256::spec_zero(), U256::spec_zero()]
}

/// The all-zero element of G2.
pub open spec fn g2_zero() -> G2 {
    [U256::spec_zero(), U256::spec_zero(), U256::spec_zero(), U256::spec_zero()]
}

/// The point at infinity of G1, `[0, 0]`.
pub fn g1_default() -> (r: G1)
    ensures
        r == g1_zero(),
{
    [U256::zero(), U256::zero()]
}

/// The all-zero element of G2.
pub fn g2_default() -> (r: G2)
    ensures
        r == g2_zero(),
{
    [U256::zero(), U256::zero(), U256::zero(), U256::zero()]
}

impl Default for U256 {
    fn default() -> (r: U256)
        ensures
            r == U256::spec_zero(),
    {
        U256::zero()
    }
}

impl Default for VK {
    fn default() -> (r: VK)
        ensures
            r.alpha == g1_zero(),
            r.beta == g2_zero(),
            r.gamma == g2_zero(),
            r.delta == g2_zero(),
            r.ic@ == Seq::<G1>::empty(),
    {
        VK {
            alpha: g1_default(),
            beta: g2_default(),
            gamma: g2_default(),
            delta: g2_default(),
            ic: Vec::new(),
        }
    }
}

impl Default for Proof {
    fn default() -> (r: Proof)
        ensures
            r.a == g1_zero(),
            r.b == g2_zero(),
            r.c == g1_zero(),
    {
        Proof { a: g1_default(), b: g2_default(), c: g1_default() }
    }
}

} // verus!
