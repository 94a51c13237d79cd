//! The group G1 of alt_bn128 as mathematics: the curve `y^2 = x^3 + 3` over Fq, its points
//! in affine coordinates (`None` the point at infinity), the chord-and-tangent law, scalar
//! multiples and multi-exponentiation, and how points stand as `G1` values.
use vstd::prelude::*;
use vstd::arithmetic::power::pow;
use vstd::arithmetic::div_mod::{lemma_fundamental_div_mod_converse, lemma_mod_multiples_vanish};
use crate::types::{U256, G1, g1_zero};

verus! {

broadcast use vstd::array::group_array_axioms;

/// The order q of the base field Fq.
pub open spec fn fq_modulus() -> int {
    21888242871839275222246405745257275088696311157297823662689037894645226208583int
}

/// The order r of G1, the modulus of scalars.
pub open spec fn fr_modulus() -> int {
    21888242871839275222246405745257275088548364400416034343698204186575808495617int
}

/// The base of one 64-bit limb.
pub open spec fn limb_base() -> int {
    0x1_0000_0000_0000_0000
}

/// The inverse of a non-zero element of Fq, `a^(q-2) mod q`.
pub open spec fn fq_inv(a: int) -> int {
    pow(a % fq_modulus(), (fq_modulus() - 2) as nat) % fq_modulus()
}

/// Whether `(x, y)` satisfies `y^2 = x^3 + 3` in Fq.
pub open spec fn on_curve(x: int, y: int) -> bool {
    (y * y) % fq_modulus() == (x * x * x + 3) % fq_modulus()
}

/// The affine point that a `G1` value stands for: `[0, 0]` is the point at infinity.
pub open spec fn g1_affine(p: G1) -> Option<(int, int)> {
    if p[0].value() == 0 && p[1].value() == 0 {
        None
    } else {
        Some((p[0].value() as int, p[1].value() as int))
    }
}

/// Whether a `G1` value is a point of the group: both coordinates below q and either
/// `[0, 0]` or on the curve.
pub open spec fn g1_valid(p: G1) -> bool {
    &&& p[0].value() < fq_modulus()
    &&& p[1].value() < fq_modulus()
    &&& (g1_affine(p) is None || on_curve(p[0].value() as int, p[1].value() as int))
}

/// The 256-bit integer of value `v` (for `0 <= v < 2^256`).
pub open spec fn u256_of(v: int) -> U256 {
    U256(
        [
            (v % limb_base()) as u64,
            ((v / limb_base()) % limb_base()) as u64,
            ((v / (limb_base() * limb_base())) % limb_base()) as u64,
            ((v / (limb_base() * limb_base() * limb_base())) % limb_base()) as u64,
        ],
    )
}

/// The `G1` value of an affine point.
pub open spec fn g1_of(p: Option<(int, int)>) -> G1 {
    match p {
        None => g1_zero(),
        Some((x, y)) => [u256_of(x), u256_of(y)],
    }
}

/// Whether an affine point has its coordinates below q and is not `(0, 0)`.
pub open spec fn canonical(p: Option<(int, int)>) -> bool {
    match p {
        None => true,
        Some((x, y)) => 0 <= x < fq_modulus() && 0 <= y < fq_modulus() && !(x == 0 && y == 0),
    }
}

/// The negation of a point: `(x, -y)`.
pub open spec fn point_neg(p: Option<(int, int)>) -> Option<(int, int)> {
    match p {
        None => None,
        Some((x, y)) => Some((x, (fq_modulus() - y) % fq_modulus())),
    }
}

/// The sum of two points of the curve by the chord-and-tangent law.
pub open spec fn point_add(p: Option<(int, int)>, q: Option<(int, int)>) -> Option<(int, int)> {
    match p {
        None => q,
        Some((x1, y1)) => match q {
            None => p,
            Some((x2, y2)) => if x1 == x2 && (y1 + y2) % fq_modulus() == 0 {
                None
            } else {
                let l = if x1 == x2 {
                    (3 * x1 * x1 * fq_inv(2 * y1)) % fq_modulus()
                } else {
                    ((y2 - y1) * fq_inv(x2 - x1)) % fq_modulus()
                };
                let x3 = (l * l - x1 - x2) % fq_modulus();
                Some((x3, (l * (x1 - x3) - y1) % fq_modulus()))
            },
        },
    }
}

/// The difference of two points.
pub open spec fn point_sub(p: Option<(int, int)>, q: Option<(int, int)>) -> Option<(int, int)> {
    point_add(p, point_neg(q))
}

/// `k` times a point.
pub open spec fn scalar_mul(p: Option<(int, int)>, k: nat) -> Option<(int, int)>
    decreases k,
{
    if k == 0 {
        None
    } else {
        point_add(scalar_mul(p, (k - 1) as nat), p)
    }
}

/// The sum of the scalar multiples of points.
pub open spec fn multiexp(items: Seq<(Option<(int, int)>, nat)>) -> Option<(int, int)>
    decreases items.len(),
{
    if items.len() == 0 {
        None
    } else {
        point_add(multiexp(items.drop_last()), scalar_mul(items.last().0, items.last().1))
    }
}

/// Reading the value of a 256-bit integer back as limbs gives the integer.
pub proof fn lemma_u256_of_value(u: U256)
    ensures
        u256_of(u.value() as int) == u,
{
    let b = limb_base();
    let (l0, l1, l2, l3) = (u.0[0] as int, u.0[1] as int, u.0[2] as int, u.0[3] as int);
    let v = u.value() as int;
    assert(v == l0 + b * (l1 + b * (l2 + b * l3))) by (nonlinear_arith)
        requires
            v == l0 + l1 * b + l2 * b * b + l3 * b * b * b,
    {
    }
    let r1 = l1 + b * (l2 + b * l3);
    lemma_fundamental_div_mod_converse(v, b, r1, l0);
    let r2 = l2 + b * l3;
    lemma_fundamental_div_mod_converse(r1, b, r2, l1);
    lemma_fundamental_div_mod_converse(r2, b, l3, l2);
    assert(v / (b * b) == r2) by {
        vstd::arithmetic::div_mod::lemma_div_denominator(v, b, b);
    }
    assert(v / (b * b * b) == l3) by {
        vstd::arithmetic::div_mod::lemma_div_denominator(v, b * b, b);
    }
    lemma_fundamental_div_mod_converse(l3, b, 0, l3);
    assert(u256_of(v).0 =~= u.0);
}

/// The value of the limbs of `v` is `v`, for `0 <= v < 2^256`.
pub proof fn lemma_value_of_u256(v: int)
    requires
        0 <= v < limb_base() * limb_base() * limb_base() * limb_base(),
    ensures
        u256_of(v).value() == v,
{
    let b = limb_base();
    let q1 = v / b;
    let q2 = q1 / b;
    let q3 = q2 / b;
    vstd::arithmetic::div_mod::lemma_fundamental_div_mod(v, b);
    vstd::arithmetic::div_mod::lemma_fundamental_div_mod(q1, b);
    vstd::arithmetic::div_mod::lemma_fundamental_div_mod(q2, b);
    vstd::arithmetic::div_mod::lemma_div_denominator(v, b, b);
    vstd::arithmetic::div_mod::lemma_div_denominator(v, b * b, b);
    assert(v / (b * b) == q2);
    assert(v / (b * b * b) == q3);
    assert(0 <= q3 < b) by {
        vstd::arithmetic::div_mod::lemma_div_is_ordered_by_denominator(v, b, b);
        vstd::arithmetic::div_mod::lemma_div_by_multiple_is_strongly_ordered(
            v,
            b * b * b * b,
            b,
            b * b * b,
        );
    }
    lemma_fundamental_div_mod_converse(q3, b, 0, q3);
    let u = u256_of(v);
    assert(u.0[0] == v % b);
    assert(u.0[3] == q3);
    assert(u.value() == v % b + (q1 % b) * b + (q2 % b) * b * b + q3 * b * b * b);
    assert(v % b + (q1 % b) * b + (q2 % b) * b * b + q3 * b * b * b == v) by (nonlinear_arith)
        requires
            v == b * q1 + v % b,
            q1 == b * q2 + q1 % b,
            q2 == b * q3 + q2 % b,
    {
    }
}

/// A point of the group stands for the affine point that it is the `G1` value of.
pub proof fn lemma_g1_of_affine(p: G1)
    requires
        g1_valid(p),
    ensures
        g1_of(g1_affine(p)) == p,
        canonical(g1_affine(p)),
{
    lemma_u256_of_value(p[0]);
    lemma_u256_of_value(p[1]);
    if g1_affine(p) is None {
        assert(p[0].0[0] == 0 && p[0].0[1] == 0 && p[0].0[2] == 0 && p[0].0[3] == 0);
        assert(p[1].0[0] == 0 && p[1].0[1] == 0 && p[1].0[2] == 0 && p[1].0[3] == 0);
        assert(p[0].0 =~= [0u64, 0u64, 0u64, 0u64]);
        assert(p[1].0 =~= [0u64, 0u64, 0u64, 0u64]);
    }
    assert(g1_of(g1_affine(p)) =~= p);
}

/// The `G1` value of a canonical affine point stands for that point.
pub proof fn lemma_affine_of_g1(o: Option<(int, int)>)
    requires
        canonical(o),
    ensures
        g1_affine(g1_of(o)) == o,
{
    let b = limb_base();
    assert(fq_modulus() < b * b * b * b) by (nonlinear_arith)
        requires
            b == limb_base(),
    ;
    match o {
        None => {},
        Some((x, y)) => {
            lemma_value_of_u256(x);
            lemma_value_of_u256(y);
        },
    }
}

/// Negating a canonical point twice gives it back, and the negation is canonical.
pub proof fn lemma_point_neg_neg(o: Option<(int, int)>)
    requires
        canonical(o),
    ensures
        canonical(point_neg(o)),
        point_neg(point_neg(o)) == o,
{
    let q = fq_modulus();
    match o {
        None => {},
        Some((x, y)) => {
            if y == 0 {
                assert(q % q == 0) by (nonlinear_arith)
                    requires
                        q > 0,
                ;
            } else {
                lemma_fundamental_div_mod_converse(q - y, q, 0, q - y);
                lemma_fundamental_div_mod_converse(y, q, 0, y);
            }
        },
    }
}

/// A point plus its negation is the point at infinity.
pub proof fn lemma_point_add_neg(o: Option<(int, int)>)
    requires
        canonical(o),
    ensures
        point_add(o, point_neg(o)) is None,
{
    let q = fq_modulus();
    match o {
        None => {},
        Some((x, y)) => {
            if y == 0 {
                assert(q % q == 0) by (nonlinear_arith)
                    requires
                        q > 0,
                ;
                assert((y + (q - y) % q) % q == 0);
            } else {
                lemma_fundamental_div_mod_converse(q - y, q, 0, q - y);
                lemma_fundamental_div_mod_converse(q, q, 1, 0);
            }
        },
    }
}

/// The negation of a point of the group is a point of the group.
pub proof fn lemma_neg_on_curve(x: int, y: int)
    requires
        0 <= y < fq_modulus(),
        on_curve(x, y),
    ensures
        on_curve(x, (fq_modulus() - y) % fq_modulus()),
{
    let q = fq_modulus();
    if y == 0 {
        assert(q % q == 0) by (nonlinear_arith)
            requires
                q > 0,
        ;
    } else {
        lemma_fundamental_div_mod_converse(q - y, q, 0, q - y);
        assert((q - y) * (q - y) == q * (q - 2 * y) + y * y) by (nonlinear_arith);
        lemma_mod_multiples_vanish(q - 2 * y, y * y, q);
    }
}

} // verus!
