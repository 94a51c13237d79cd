//! Groth16 verification on alt_bn128, and the typed curve operations it is made of.
use vstd::prelude::*;
use crate::types::{U256, G1, G2, VK, VKModel, Proof, VU256, g1_zero, g1_default};
use crate::codec::{dec_g1, dec_list, dec_chunks, g1_g2_dec, signed_g1_dec, dec_signed_points, enc_signed_points, enc_multiexp_input, enc_pairing_input};
use crate::encode::{encode_signed_points, encode_multiexp_input, encode_pairing_input};
use crate::decode::read_g1;
use crate::alt_bn128;
use crate::alt_bn128::{
    g1_sum_output, g1_multiexp_bytes, pairing_check_output, g1_fold, g1_sub_bytes, g1_zero_bytes,
};
use crate::alt_bn128::{
    g1_bytes_point, g1_bytes_valid,
    g1_add_bytes, lemma_fold_stays_refused, multiexp_points, g2_coords_below_q,
    pairing_input_readable,
};
use crate::codec::{
    enc_g1, enc_u256, lemma_signed_points_roundtrip, lemma_g1_roundtrip, lemma_multiexp_input_roundtrip,
    lemma_pairing_input_roundtrip, lemma_g1_bytes_roundtrip,
};
use crate::curve::{
    g1_valid, g1_affine, g1_of, point_neg, point_add, point_sub, scalar_mul, multiexp, canonical,
    on_curve,
    fr_modulus,
    lemma_g1_of_affine, lemma_affine_of_g1, lemma_point_neg_neg, lemma_point_add_neg,
    lemma_neg_on_curve,
};
use vstd::bytes::{spec_u64_to_le_bytes, spec_u64_to_le_bytes_to_open, spec_u32_from_le_bytes};

verus! {

broadcast use vstd::array::group_array_axioms;

/// The G1 point read from the start of an operation's output: the first 64 bytes, or the
/// point at infinity where the operation failed or gave fewer bytes.
pub open spec fn g1_from_output(out: Option<Seq<u8>>) -> G1 {
    match out {
        Some(b) => if b.len() >= 64 {
            dec_g1(b.take(64))
        } else {
            g1_zero()
        },
        None => g1_zero(),
    }
}

/// The bytes handed to an operation: the encoded list, or no bytes where the list is too
/// long for its length to fit in four bytes.
pub open spec fn list_bytes_or_empty(fits: bool, b: Seq<u8>) -> Seq<u8> {
    if fits {
        b
    } else {
        Seq::empty()
    }
}

/// The sum of signed points: a point with `true` subtracted, one with `false` added.
pub open spec fn spec_g1_sum(v: Seq<(bool, G1)>) -> G1 {
    g1_from_output(g1_sum_output(list_bytes_or_empty(v.len() <= u32::MAX, enc_signed_points(v))))
}

/// The negation of a point.
pub open spec fn spec_g1_neg(p: G1) -> G1 {
    spec_g1_sum(seq![(true, p)])
}

/// The multi-exponentiation of (point, scalar) pairs.
pub open spec fn spec_g1_multiexp(v: Seq<(G1, U256)>) -> G1 {
    g1_from_output(
        g1_multiexp_bytes(list_bytes_or_empty(v.len() <= u32::MAX, enc_multiexp_input(v))),
    )
}

/// Whether the product of the pairings of (G1, G2) pairs is one; `false` where the
/// operation refuses its input.
pub open spec fn spec_pairing_check(v: Seq<(G1, G2)>) -> bool {
    match pairing_check_output(list_bytes_or_empty(v.len() <= u32::MAX, enc_pairing_input(v))) {
        Some(r) => r,
        None => false,
    }
}

/// The point read from an operation's output, or the point at infinity.
fn g1_from_result(res: Result<Vec<u8>, alt_bn128::AltBn128Error>, Ghost(out): Ghost<Option<Seq<u8>>>) -> (r: G1)
    requires
        match res {
            Ok(v) => out == Some(v@),
            Err(_) => out is None,
        },
    ensures
        r == g1_from_output(out),
{
    match res {
        Ok(v) => {
            if v.len() >= 64 {
                let p = read_g1(v.as_slice(), 0);
                assert(v@.subrange(0, 64) =~= v@.take(64));
                p
            } else {
                g1_default()
            }
        },
        Err(_) => g1_default(),
    }
}

/// The sum of the signed points in `v`: each point marked `true` is subtracted, each one
/// marked `false` added, starting from the point at infinity. Where the operation refuses
/// the input (a point off the curve), the point at infinity.
pub fn alt_bn128_g1_sum(v: &[(bool, G1)]) -> (r: G1)
    ensures
        r == spec_g1_sum(v@),
{
    let data = match encode_signed_points(v) {
        Some(d) => d,
        None => Vec::new(),
    };
    assert(data@ == list_bytes_or_empty(v@.len() <= u32::MAX, enc_signed_points(v@)));
    let res = alt_bn128::alt_bn128_g1_sum(data.as_slice());
    g1_from_result(res, Ghost(g1_sum_output(data@)))
}

/// The negation of `p`, computed as the sum of `p` marked for subtraction.
pub fn alt_bn128_g1_neg(p: G1) -> (r: G1)
    ensures
        r == spec_g1_neg(p),
{
    let v = [(true, p)];
    let r = alt_bn128_g1_sum(&v);
    assert(v@ =~= seq![(true, p)]);
    r
}

/// The multi-exponentiation of the (point, scalar) pairs in `v`; the point at infinity
/// where the operation refuses the input.
pub fn alt_bn128_g1_multiexp(v: &[(G1, U256)]) -> (r: G1)
    ensures
        r == spec_g1_multiexp(v@),
{
    let data = match encode_multiexp_input(v) {
        Some(d) => d,
        None => Vec::new(),
    };
    assert(data@ == list_bytes_or_empty(v@.len() <= u32::MAX, enc_multiexp_input(v@)));
    let res = alt_bn128::alt_bn128_g1_multiexp(data.as_slice());
    g1_from_result(res, Ghost(g1_multiexp_bytes(data@)))
}

/// Whether the product of the pairings of the pairs in `v` is one; `false` where the
/// operation refuses the input.
pub fn alt_bn128_pairing_check(v: &[(G1, G2)]) -> (r: bool)
    ensures
        r == spec_pairing_check(v@),
        pairs_refused(v@) ==> !r,
{
    let data = match encode_pairing_input(v) {
        Some(d) => d,
        None => Vec::new(),
    };
    assert(data@ == list_bytes_or_empty(v@.len() <= u32::MAX, enc_pairing_input(v@)));
    let res = alt_bn128::alt_bn128_pairing_check(data.as_slice());
    proof {
        if res is Ok {
            assert(data@ == enc_pairing_input(v@));
            lemma_readable_not_refused(v@);
        }
    }
    match res {
        Ok(b) => b,
        Err(_) => false,
    }
}

/// Whether a list of pairs is short enough to encode and has a G1 half that is not a point
/// of the group or a G2 coordinate not below q, which the pairing check refuses.
pub open spec fn pairs_refused(v: Seq<(G1, G2)>) -> bool {
    &&& v.len() <= u32::MAX
    &&& exists|i: int| 0 <= i < v.len() && #[trigger] pair_refused(v[i])
}

/// Whether the G1 half of a pair is not a point of the group or a G2 coordinate is not
/// below q.
pub open spec fn pair_refused(p: (G1, G2)) -> bool {
    !(g1_valid(p.0) && g2_coords_below_q(p.1))
}

/// A list whose encoding the pairing check reads has every G1 half a point of the group
/// and every G2 coordinate below q.
proof fn lemma_readable_not_refused(v: Seq<(G1, G2)>)
    ensures
        v.len() <= u32::MAX && pairing_input_readable(enc_pairing_input(v)) ==> !pairs_refused(v),
{
    if v.len() <= u32::MAX && pairing_input_readable(enc_pairing_input(v)) {
        lemma_pairing_input_roundtrip(v);
        let items = dec_list(enc_pairing_input(v), 192, g1_g2_dec()).unwrap();
        assert(items == v);
        assert(forall|i: int|
            0 <= i < items.len() ==> g1_valid(#[trigger] items[i].0) && g2_coords_below_q(
                items[i].1,
            ));
        assert forall|i: int| 0 <= i < v.len() implies !#[trigger] pair_refused(v[i]) by {
            assert(items[i] == v[i]);
        }
    }
}

/// A key or proof value that the pairing check refuses makes the Groth16 pairs refused,
/// whatever the first G1 halves `a` and `m` are.
proof fn lemma_refused_key_or_proof(vk: VKModel, proof: Proof, a: G1, m: G1)
    ensures
        key_or_proof_refused(vk, proof) ==> pairs_refused(
            seq![(a, proof.b), (vk.alpha, vk.beta), (m, vk.gamma), (proof.c, vk.delta)],
        ),
{
    let pv = seq![(a, proof.b), (vk.alpha, vk.beta), (m, vk.gamma), (proof.c, vk.delta)];
    if key_or_proof_refused(vk, proof) {
        if !g1_valid(vk.alpha) || !g2_coords_below_q(vk.beta) {
            assert(pair_refused(pv[1]));
        } else if !g1_valid(proof.c) || !g2_coords_below_q(vk.delta) {
            assert(pair_refused(pv[3]));
        } else if !g2_coords_below_q(proof.b) {
            assert(pair_refused(pv[0]));
        } else {
            assert(pair_refused(pv[2]));
        }
    }
}

/// Whether a key and proof hold a value that the pairing check refuses: alpha or c not a
/// point of the group, or a coordinate of b, beta, gamma or delta not below q.
pub open spec fn key_or_proof_refused(vk: VKModel, proof: Proof) -> bool {
    ||| !g1_valid(vk.alpha)
    ||| !g1_valid(proof.c)
    ||| !g2_coords_below_q(proof.b)
    ||| !g2_coords_below_q(vk.beta)
    ||| !g2_coords_below_q(vk.gamma)
    ||| !g2_coords_below_q(vk.delta)
}

/// The (point, scalar) pairs of the linear combination of the public inputs: `ic[0]` with
/// one, then `ic[i]` with `input[i - 1]`, as far as both lists reach.
pub open spec fn acc_items(ic: Seq<G1>, input: Seq<U256>) -> Seq<(G1, U256)> {
    let n = if ic.len() <= input.len() + 1 {
        ic.len()
    } else {
        input.len() + 1
    };
    Seq::new(
        n as nat,
        |i: int|
            (
                ic[i],
                if i == 0 {
                    U256::spec_one()
                } else {
                    input[i - 1]
                },
            ),
    )
}

/// The four pairs whose pairing product Groth16 checks against one.
pub open spec fn pairing_items(vk: VKModel, proof: Proof, input: Seq<U256>) -> Seq<(G1, G2)> {
    seq![
        (spec_g1_neg(proof.a), proof.b),
        (vk.alpha, vk.beta),
        (spec_g1_multiexp(acc_items(vk.ic, input)), vk.gamma),
        (proof.c, vk.delta),
    ]
}

/// Whether `proof` is accepted for the public inputs `input` under the key `vk`.
pub open spec fn spec_groth16verify(vk: VKModel, proof: Proof, input: Seq<U256>) -> bool {
    spec_pairing_check(pairing_items(vk, proof, input))
}

/// Groth16 verification on alt_bn128: `e(-a, b) * e(alpha, beta) * e(acc, gamma) *
/// e(c, delta) == 1`, where `acc` is `ic[0] + sum of input[i] * ic[i + 1]`.
pub fn groth16verify(vkd: VK, proofd: Proof, inputd: VU256) -> (r: bool)
    ensures
        r == spec_groth16verify(vkd@, proofd, inputd@),
        key_or_proof_refused(vkd@, proofd) ==> !r,
{
    let neg_a = alt_bn128_g1_neg(proofd.a);
    let nic = vkd.ic.len();
    let nin = inputd.len();
    let n = if nic <= nin {
        nic
    } else if nin < usize::MAX {
        nin + 1
    } else {
        nic
    };
    let mut acc_expr: Vec<(G1, U256)> = Vec::new();
    for i in 0..n
        invariant
            n <= nic,
            nic == vkd.ic@.len(),
            nin == inputd@.len(),
            n == acc_items(vkd.ic@, inputd@).len(),
            acc_expr@ == acc_items(vkd.ic@, inputd@).take(i as int),
    {
        let exp = if i == 0 {
            U256::one()
        } else {
            inputd[i - 1]
        };
        acc_expr.push((vkd.ic[i], exp));
        assert(acc_expr@ =~= acc_items(vkd.ic@, inputd@).take(i + 1));
    }
    assert(acc_expr@ =~= acc_items(vkd.ic@, inputd@));
    let acc = alt_bn128_g1_multiexp(acc_expr.as_slice());
    let pairing_expr = [
        (neg_a, proofd.b),
        (vkd.alpha, vkd.beta),
        (acc, vkd.gamma),
        (proofd.c, vkd.delta),
    ];
    assert(pairing_expr@ =~= pairing_items(vkd@, proofd, inputd@));
    proof {
        lemma_refused_key_or_proof(vkd@, proofd, neg_a, acc);
        assert(pairing_expr@ =~= seq![
            (neg_a, proofd.b),
            (vkd.alpha, vkd.beta),
            (acc, vkd.gamma),
            (proofd.c, vkd.delta),
        ]);
    }
    alt_bn128_pairing_check(&pairing_expr)
}


/// The sum of signed points is the running sum over exactly those points, for a list whose
/// length fits in four bytes: encoding the list loses nothing on the way to the operation.
pub proof fn lemma_g1_sum_of_items(v: Seq<(bool, G1)>)
    requires
        v.len() <= u32::MAX,
    ensures
        spec_g1_sum(v) == g1_from_output(g1_fold(v)),
{
    lemma_signed_points_roundtrip(v);
}

/// The negation of a point is the point at infinity minus that point.
pub proof fn lemma_g1_neg_is_subtraction(p: G1)
    ensures
        spec_g1_neg(p) == g1_from_output(g1_sub_bytes(g1_zero_bytes(), enc_g1(p))),
{
    let v = seq![(true, p)];
    lemma_signed_points_roundtrip(v);
    assert(v.drop_last() =~= Seq::<(bool, G1)>::empty());
    assert(v.last() == (true, p));
    assert(g1_fold(v.drop_last()) == Some(g1_zero_bytes()));
    assert(g1_fold(v) == g1_sub_bytes(g1_zero_bytes(), enc_g1(p)));
    assert(spec_g1_sum(v) == g1_from_output(g1_fold(v)));
}


/// The 64 zero bytes are the encoding of the point at infinity.
proof fn lemma_zero_bytes()
    ensures
        g1_zero_bytes() == enc_g1(g1_zero()),
{
    spec_u64_to_le_bytes_to_open(0u64);
    assert((0u64 & 0xff) as u8 == 0u8) by (bit_vector);
    assert((0u64 >> 8u64) & 0xff == 0u64) by (bit_vector);
    assert((0u64 >> 16u64) & 0xff == 0u64) by (bit_vector);
    assert((0u64 >> 24u64) & 0xff == 0u64) by (bit_vector);
    assert((0u64 >> 32u64) & 0xff == 0u64) by (bit_vector);
    assert((0u64 >> 40u64) & 0xff == 0u64) by (bit_vector);
    assert((0u64 >> 48u64) & 0xff == 0u64) by (bit_vector);
    assert((0u64 >> 56u64) & 0xff == 0u64) by (bit_vector);
    assert(spec_u64_to_le_bytes(0u64) =~= Seq::new(8, |_i: int| 0u8));
    assert(enc_g1(g1_zero()) =~= g1_zero_bytes());
}

/// An operation's output that encodes a point is read back as that point.
proof fn lemma_output_of_point(p: G1)
    ensures
        g1_from_output(Some(enc_g1(p))) == p,
{
    lemma_g1_roundtrip(p);
    assert(enc_g1(p).take(64) =~= enc_g1(p));
}

/// The negation of a point of the group is `(x, -y)` (infinity stays infinity); any other
/// value is negated to the point at infinity.
pub proof fn lemma_g1_neg_of_point(p: G1)
    ensures
        spec_g1_neg(p) == if g1_valid(p) {
            g1_of(point_neg(g1_affine(p)))
        } else {
            g1_zero()
        },
{
    lemma_g1_neg_is_subtraction(p);
    lemma_zero_bytes();
    lemma_g1_roundtrip(p);
    lemma_g1_roundtrip(g1_zero());
    if g1_valid(p) {
        lemma_output_of_point(g1_of(point_neg(g1_affine(p))));
    }
}

/// The negation of a point of the group is a point of the group, standing for the negated
/// affine point.
pub proof fn lemma_g1_neg_valid(p: G1)
    requires
        g1_valid(p),
    ensures
        g1_valid(spec_g1_neg(p)),
        g1_affine(spec_g1_neg(p)) == point_neg(g1_affine(p)),
{
    lemma_g1_neg_of_point(p);
    lemma_g1_of_affine(p);
    let o = g1_affine(p);
    lemma_point_neg_neg(o);
    lemma_affine_of_g1(point_neg(o));
    if o is Some {
        lemma_neg_on_curve(p[0].value() as int, p[1].value() as int);
    }
}

/// Negating a point of the group twice gives the point back.
pub proof fn lemma_g1_neg_neg(p: G1)
    requires
        g1_valid(p),
    ensures
        spec_g1_neg(spec_g1_neg(p)) == p,
{
    lemma_g1_neg_valid(p);
    lemma_g1_neg_of_point(spec_g1_neg(p));
    lemma_g1_of_affine(p);
    lemma_point_neg_neg(g1_affine(p));
}

/// The sum of a single point of the group, added, is that point.
pub proof fn lemma_g1_sum_single(p: G1)
    requires
        g1_valid(p),
    ensures
        spec_g1_sum(seq![(false, p)]) == p,
{
    let v = seq![(false, p)];
    lemma_g1_sum_of_items(v);
    lemma_zero_bytes();
    lemma_g1_roundtrip(p);
    lemma_g1_roundtrip(g1_zero());
    lemma_g1_of_affine(p);
    assert(v.drop_last() =~= Seq::<(bool, G1)>::empty());
    assert(g1_fold(v.drop_last()) == Some(g1_zero_bytes()));
    assert(v.last() == (false, p));
    assert(g1_fold(v) == g1_add_bytes(g1_zero_bytes(), enc_g1(p)));
    assert(g1_add_bytes(g1_zero_bytes(), enc_g1(p)) == Some(enc_g1(p)));
    lemma_output_of_point(p);
}

/// A point of the group added and then subtracted sums to the point at infinity.
pub proof fn lemma_g1_sum_point_and_negation(p: G1)
    requires
        g1_valid(p),
    ensures
        spec_g1_sum(seq![(false, p), (true, p)]) == g1_zero(),
{
    let v = seq![(false, p), (true, p)];
    lemma_g1_sum_of_items(v);
    lemma_zero_bytes();
    lemma_g1_roundtrip(p);
    lemma_g1_roundtrip(g1_zero());
    lemma_g1_of_affine(p);
    lemma_point_add_neg(g1_affine(p));
    assert(v.drop_last() =~= seq![(false, p)]);
    let w = seq![(false, p)];
    assert(w.drop_last() =~= Seq::<(bool, G1)>::empty());
    assert(g1_fold(w.drop_last()) == Some(g1_zero_bytes()));
    assert(w.last() == (false, p));
    assert(g1_add_bytes(g1_zero_bytes(), enc_g1(p)) == Some(enc_g1(p)));
    assert(g1_fold(w) == Some(enc_g1(p)));
    assert(v.last() == (true, p));
    assert(g1_fold(v) == Some(enc_g1(g1_zero())));
    lemma_output_of_point(g1_zero());
}

/// A sum over signed values of which one is not a point of the group is the point at
/// infinity: the operation refuses it.
pub proof fn lemma_g1_sum_refuses_non_point(v: Seq<(bool, G1)>, i: int)
    requires
        v.len() <= u32::MAX,
        0 <= i < v.len(),
        !g1_valid(v[i].1),
    ensures
        spec_g1_sum(v) == g1_zero(),
{
    lemma_g1_sum_of_items(v);
    lemma_g1_roundtrip(v[i].1);
    let t = v.take(i + 1);
    assert(t.drop_last() =~= v.take(i));
    assert(t.last() == v[i]);
    assert(g1_fold(t) is None);
    lemma_fold_stays_refused(v, (i + 1) as nat);
}

/// The multi-exponentiation of a point of the group by one is that point.
pub proof fn lemma_g1_multiexp_by_one(p: G1)
    requires
        g1_valid(p),
    ensures
        spec_g1_multiexp(seq![(p, U256::spec_one())]) == p,
{
    let v = seq![(p, U256::spec_one())];
    lemma_multiexp_input_roundtrip(v);
    lemma_g1_of_affine(p);
    let pts = multiexp_points(v);
    assert(pts.len() == 1);
    assert(pts[0] == (g1_affine(p), 1nat));
    assert(pts.drop_last() =~= Seq::<(Option<(int, int)>, nat)>::empty());
    assert(scalar_mul(g1_affine(p), 0) is None);
    assert(scalar_mul(g1_affine(p), 1) == g1_affine(p));
    assert(multiexp(pts.drop_last()) is None);
    assert(pts.last() == (g1_affine(p), 1nat));
    assert(multiexp(pts) == g1_affine(p));
    lemma_output_of_point(p);
}


/// A point of the group, negated where `s` holds, is again a point of the group and stands
/// for the correspondingly negated affine point.
proof fn lemma_signed_point_valid(s: bool, p: G1)
    requires
        g1_valid(p),
    ensures
        ({
            let sp = if s {
                point_neg(g1_affine(p))
            } else {
                g1_affine(p)
            };
            &&& g1_valid(g1_of(sp))
            &&& g1_affine(g1_of(sp)) == sp
        }),
{
    lemma_g1_of_affine(p);
    if s {
        lemma_g1_neg_valid(p);
        lemma_g1_neg_of_point(p);
    }
}

/// Each step of the running sum acts on its own item alone: an item marked `true` is
/// subtracted from the sum so far and one marked `false` is added, whatever the signs of
/// the earlier items.
pub proof fn lemma_g1_fold_step(items: Seq<(bool, G1)>, s: bool, p: G1)
    ensures
        g1_fold(items.push((s, p))) == match g1_fold(items) {
            Some(acc) => if s {
                g1_sub_bytes(acc, enc_g1(p))
            } else {
                g1_add_bytes(acc, enc_g1(p))
            },
            None => None,
        },
{
    assert(items.push((s, p)).drop_last() =~= items);
    assert(items.push((s, p)).last() == (s, p));
}

/// The running sum, where it is not refused, is 64 bytes.
proof fn lemma_g1_fold_len(items: Seq<(bool, G1)>)
    ensures
        g1_fold(items) matches Some(acc) ==> acc.len() == 64,
    decreases items.len(),
{
    if items.len() > 0 {
        lemma_g1_fold_len(items.drop_last());
        let p = items.last().1;
        match g1_fold(items.drop_last()) {
            Some(acc) => {
                let a = g1_bytes_point(acc);
                let b = g1_bytes_point(enc_g1(p));
                lemma_g1_roundtrip(g1_of(point_add(a, b)));
                lemma_g1_roundtrip(g1_of(point_sub(a, b)));
            },
            None => {},
        }
    }
}

/// Adding one more signed point to a sum: where the sum of `v` is accepted and is a point
/// of the group, the sum of `v` followed by `(s, p)` is that sum plus `p`, or minus `p`
/// where `s` holds, by the curve's law.
pub proof fn lemma_g1_sum_push(v: Seq<(bool, G1)>, s: bool, p: G1)
    requires
        v.len() < u32::MAX,
        g1_sum_output(enc_signed_points(v)) is Some,
        g1_valid(spec_g1_sum(v)),
        g1_valid(p),
    ensures
        spec_g1_sum(v.push((s, p))) == g1_of(
            point_add(
                g1_affine(spec_g1_sum(v)),
                if s {
                    point_neg(g1_affine(p))
                } else {
                    g1_affine(p)
                },
            ),
        ),
{
    lemma_g1_sum_of_items(v);
    lemma_g1_sum_of_items(v.push((s, p)));
    lemma_signed_points_roundtrip(v);
    lemma_g1_fold_step(v, s, p);
    lemma_g1_fold_len(v);
    let acc = g1_fold(v).unwrap();
    lemma_g1_bytes_roundtrip(acc);
    assert(acc.take(64) =~= acc);
    assert(spec_g1_sum(v) == dec_g1(acc));
    lemma_g1_roundtrip(p);
    let r = point_add(
        g1_affine(spec_g1_sum(v)),
        if s {
            point_neg(g1_affine(p))
        } else {
            g1_affine(p)
        },
    );
    lemma_output_of_point(g1_of(r));
}

/// Two signed points of the group sum to the first, negated where its sign holds, plus the
/// second, negated where its sign holds: each sign applies to its own point.
pub proof fn lemma_g1_sum_signed_pair(s: bool, p: G1, t: bool, q: G1)
    requires
        g1_valid(p),
        g1_valid(q),
    ensures
        spec_g1_sum(seq![(s, p), (t, q)]) == g1_of(
            point_add(
                if s {
                    point_neg(g1_affine(p))
                } else {
                    g1_affine(p)
                },
                if t {
                    point_neg(g1_affine(q))
                } else {
                    g1_affine(q)
                },
            ),
        ),
{
    let w = seq![(s, p)];
    let empty = Seq::<(bool, G1)>::empty();
    lemma_zero_bytes();
    lemma_g1_roundtrip(g1_zero());
    lemma_g1_roundtrip(p);
    lemma_signed_point_valid(s, p);
    let sp = if s {
        point_neg(g1_affine(p))
    } else {
        g1_affine(p)
    };
    assert(empty.push((s, p)) =~= w);
    lemma_g1_fold_step(empty, s, p);
    assert(g1_fold(empty) == Some(g1_zero_bytes()));
    assert(g1_fold(w) == Some(enc_g1(g1_of(sp))));
    lemma_signed_points_roundtrip(w);
    lemma_g1_sum_of_items(w);
    lemma_output_of_point(g1_of(sp));
    assert(spec_g1_sum(w) == g1_of(sp));
    assert(w.push((t, q)) =~= seq![(s, p), (t, q)]);
    lemma_g1_sum_push(w, t, q);
}


/// The point that an item of a signed sum stands for: its point, negated where the item's
/// own sign holds.
pub open spec fn signed_point(it: (bool, G1)) -> Option<(int, int)> {
    if it.0 {
        point_neg(g1_affine(it.1))
    } else {
        g1_affine(it.1)
    }
}

/// The curve sum, by the chord-and-tangent law, of the signed points of the items, from
/// the first item to the last.
pub open spec fn signed_curve_sum(v: Seq<(bool, G1)>) -> Option<(int, int)>
    decreases v.len(),
{
    if v.len() == 0 {
        None
    } else {
        point_add(signed_curve_sum(v.drop_last()), signed_point(v.last()))
    }
}

/// Whether an affine value is a point of the group: canonical, and on the curve unless it
/// is the point at infinity.
pub open spec fn curve_point(o: Option<(int, int)>) -> bool {
    &&& canonical(o)
    &&& match o {
        None => true,
        Some((x, y)) => on_curve(x, y),
    }
}

/// The `G1` value of a point of the group is valid and stands for that point.
proof fn lemma_curve_point_valid(o: Option<(int, int)>)
    requires
        curve_point(o),
    ensures
        g1_valid(g1_of(o)),
        g1_affine(g1_of(o)) == o,
{
    lemma_affine_of_g1(o);
}

/// The running sum of a list of points of the group, where every partial curve sum is a
/// point of the group, is accepted at every step and encodes the curve sum.
proof fn lemma_g1_fold_curve(v: Seq<(bool, G1)>)
    requires
        forall|i: int| 0 <= i < v.len() ==> g1_valid(#[trigger] v[i].1),
        forall|k: int| 0 <= k <= v.len() ==> curve_point(#[trigger] signed_curve_sum(v.take(k))),
    ensures
        g1_fold(v) == Some(enc_g1(g1_of(signed_curve_sum(v)))),
    decreases v.len(),
{
    if v.len() == 0 {
        lemma_zero_bytes();
    } else {
        let w = v.drop_last();
        let s = v.last().0;
        let p = v.last().1;
        assert forall|k: int| 0 <= k <= w.len() implies curve_point(
            #[trigger] signed_curve_sum(w.take(k)),
        ) by {
            assert(w.take(k) =~= v.take(k));
            assert(curve_point(signed_curve_sum(v.take(k))));
        }
        assert forall|i: int| 0 <= i < w.len() implies g1_valid(#[trigger] w[i].1) by {
            assert(w[i] == v[i]);
        }
        lemma_g1_fold_curve(w);
        assert(v.take(w.len() as int) =~= w);
        assert(curve_point(signed_curve_sum(v.take(w.len() as int))));
        assert(v.take(v.len() as int) =~= v);
        assert(curve_point(signed_curve_sum(v.take(v.len() as int))));
        assert(g1_valid(v[v.len() - 1].1));
        let acc = signed_curve_sum(w);
        lemma_curve_point_valid(acc);
        lemma_g1_roundtrip(g1_of(acc));
        lemma_g1_roundtrip(p);
        assert(v =~= w.push((s, p)));
        lemma_g1_fold_step(w, s, p);
    }
}

/// The signed sum is the curve sum of its items, each point negated where its own sign
/// holds and added as it is otherwise, whatever the signs of the other items: for a list of
/// points of the group whose partial curve sums are points of the group, the sum is exactly
/// that curve sum.
pub proof fn lemma_g1_sum_is_curve_sum(v: Seq<(bool, G1)>)
    requires
        v.len() <= u32::MAX,
        forall|i: int| 0 <= i < v.len() ==> g1_valid(#[trigger] v[i].1),
        forall|k: int| 0 <= k <= v.len() ==> curve_point(#[trigger] signed_curve_sum(v.take(k))),
    ensures
        spec_g1_sum(v) == g1_of(signed_curve_sum(v)),
        g1_affine(spec_g1_sum(v)) == signed_curve_sum(v),
        g1_valid(spec_g1_sum(v)),
{
    lemma_g1_sum_of_items(v);
    lemma_g1_fold_curve(v);
    lemma_output_of_point(g1_of(signed_curve_sum(v)));
    assert(v.take(v.len() as int) =~= v);
    assert(curve_point(signed_curve_sum(v.take(v.len() as int))));
    lemma_curve_point_valid(signed_curve_sum(v));
}

/// The public inputs enter Groth16 as `ic[0]` plus each input times its `ic` point, as far
/// as both lists reach: with points `c0`, `c1` of the group and one input `x` below r
/// (and any further inputs, which have no `ic` point), the combination is
/// `c0 + x * c1`.
pub proof fn lemma_groth16_input_combination(c0: G1, c1: G1, x: U256, rest: Seq<U256>)
    requires
        g1_valid(c0),
        g1_valid(c1),
        x.value() < fr_modulus(),
    ensures
        spec_g1_multiexp(acc_items(seq![c0, c1], seq![x] + rest)) == g1_of(
            point_add(g1_affine(c0), scalar_mul(g1_affine(c1), x.value())),
        ),
{
    let items = acc_items(seq![c0, c1], seq![x] + rest);
    assert(items =~= seq![(c0, U256::spec_one()), (c1, x)]);
    lemma_multiexp_input_roundtrip(items);
    lemma_g1_of_affine(c0);
    lemma_g1_of_affine(c1);
    let pts = multiexp_points(items);
    assert(pts =~= seq![(g1_affine(c0), 1nat), (g1_affine(c1), x.value())]);
    assert(pts.drop_last() =~= seq![(g1_affine(c0), 1nat)]);
    assert(pts.drop_last().drop_last() =~= Seq::<(Option<(int, int)>, nat)>::empty());
    assert(multiexp(pts.drop_last().drop_last()) is None);
    assert(pts.drop_last().last() == (g1_affine(c0), 1nat));
    assert(multiexp(pts.drop_last()) == point_add(None, scalar_mul(g1_affine(c0), 1)));
    assert(pts.last() == (g1_affine(c1), x.value()));
    assert(multiexp(pts) == point_add(
        scalar_mul(g1_affine(c0), 1),
        scalar_mul(g1_affine(c1), x.value()),
    ));
    assert(scalar_mul(g1_affine(c0), 0) is None);
    assert(scalar_mul(g1_affine(c0), 1) == g1_affine(c0));
    let r = point_add(g1_affine(c0), scalar_mul(g1_affine(c1), x.value()));
    lemma_output_of_point(g1_of(r));
}

/// The four Groth16 pairs are `(-a, b)`, `(alpha, beta)`, `(acc, gamma)` and `(c, delta)`:
/// for a proof whose `a` is a point of the group, the first G1 half is `a` reflected, and
/// with a single `ic` point and no inputs, `acc` is that point.
pub proof fn lemma_groth16_pairs(vk: VKModel, proof: Proof, input: Seq<U256>)
    requires
        g1_valid(proof.a),
    ensures
        pairing_items(vk, proof, input).len() == 4,
        pairing_items(vk, proof, input)[0] == (g1_of(point_neg(g1_affine(proof.a))), proof.b),
        pairing_items(vk, proof, input)[1] == (vk.alpha, vk.beta),
        pairing_items(vk, proof, input)[2].1 == vk.gamma,
        pairing_items(vk, proof, input)[3] == (proof.c, vk.delta),
        vk.ic.len() == 1 && g1_valid(vk.ic[0]) ==> pairing_items(vk, proof, input)[2].0
            == vk.ic[0],
{
    lemma_g1_neg_of_point(proof.a);
    if vk.ic.len() == 1 && g1_valid(vk.ic[0]) {
        assert(acc_items(vk.ic, input) =~= seq![(vk.ic[0], U256::spec_one())]);
        lemma_g1_multiexp_by_one(vk.ic[0]);
    }
}


/// On the byte-level sum of a one-item list (count 1, then a sign byte, then 64 bytes of a
/// point of the group), sign byte 1 (borsh's `true`) gives the negated point, sign byte 0
/// gives the point unchanged, and any other sign byte is refused.
pub proof fn lemma_byte_sum_sign(data: Seq<u8>)
    requires
        data.len() == 69,
        spec_u32_from_le_bytes(data.take(4)) == 1,
        g1_bytes_valid(data.subrange(5, 69)),
    ensures
        data[4] == 1 ==> g1_sum_output(data) == Some(
            enc_g1(g1_of(point_neg(g1_bytes_point(data.subrange(5, 69))))),
        ),
        data[4] == 0 ==> g1_sum_output(data) == Some(data.subrange(5, 69)),
        data[4] > 1 ==> g1_sum_output(data) is None,
{
    let pb = data.subrange(5, 69);
    let body = data.skip(4);
    let c = body.take(65);
    assert(c.skip(1) =~= pb);
    assert(c[0] == data[4]);
    assert(body.skip(65).len() == 0);
    assert(dec_chunks(body.skip(65), 0, 65, signed_g1_dec()) == Some(Seq::<(bool, G1)>::empty()));
    let p = dec_g1(pb);
    lemma_g1_bytes_roundtrip(pb);
    lemma_g1_of_affine(p);
    lemma_zero_bytes();
    lemma_g1_roundtrip(g1_zero());
    let empty = Seq::<(bool, G1)>::empty();
    assert(g1_fold(empty) == Some(g1_zero_bytes()));
    if data[4] == 1 {
        assert(signed_g1_dec()(c) == Some((true, p)));
        assert(seq![(true, p)] + empty =~= seq![(true, p)]);
        assert(dec_signed_points(data) == Some(seq![(true, p)]));
        assert(empty.push((true, p)) =~= seq![(true, p)]);
        lemma_g1_fold_step(empty, true, p);
    } else if data[4] == 0 {
        assert(signed_g1_dec()(c) == Some((false, p)));
        assert(seq![(false, p)] + empty =~= seq![(false, p)]);
        assert(dec_signed_points(data) == Some(seq![(false, p)]));
        assert(empty.push((false, p)) =~= seq![(false, p)]);
        lemma_g1_fold_step(empty, false, p);
    } else {
        assert(signed_g1_dec()(c) is None);
    }
}

} // verus!
