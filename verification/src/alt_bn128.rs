//! The alt_bn128 curve operations on their byte inputs: G1 sums of signed points,
//! G1 multi-exponentiation and the pairing check, carried out by zeropool-bn.
use vstd::prelude::*;
use borsh::{BorshDeserialize, BorshSerialize};
use zeropool_bn::Group;
use crate::types::{U256, G1, G2};
use crate::curve::{
    g1_valid, g1_affine, g1_of, point_add, point_sub, multiexp, fr_modulus, fq_modulus,
};
use crate::codec::{enc_g1, dec_g1, dec_list, dec_signed_points, g1_scalar_dec, g1_g2_dec};
use crate::decode::decode_signed_points;
use crate::encode::g1_to_bytes;

verus! {

#[verifier::external_type_specification]
#[verifier::external_body]
pub struct ExIoError(std::io::Error);

/// Why a curve operation refused its input.
#[derive(Debug, Clone, Copy, PartialEq, Eq)]
pub enum AltBn128Error {
    /// The bytes are not a list of items in the operation's format, or a coordinate is not
    /// below the field modulus, or a point is not on the curve (or, for G2, not in the
    /// prime-order subgroup).
    InvalidInput,
}

/// Whether 64 bytes are a point of the group that zeropool-bn reads: each coordinate, 32
/// little-endian bytes, below q, and the point `[0, 0]` (infinity) or on the curve.
pub open spec fn g1_bytes_valid(b: Seq<u8>) -> bool {
    b.len() == 64 && g1_valid(dec_g1(b))
}

/// The affine point that 64 bytes encode.
pub open spec fn g1_bytes_point(b: Seq<u8>) -> Option<(int, int)> {
    g1_affine(dec_g1(b))
}

/// The encoded sum of the points that `a` and `b` encode; `None` where one is not a point.
pub open spec fn g1_add_bytes(a: Seq<u8>, b: Seq<u8>) -> Option<Seq<u8>> {
    if g1_bytes_valid(a) && g1_bytes_valid(b) {
        Some(enc_g1(g1_of(point_add(g1_bytes_point(a), g1_bytes_point(b)))))
    } else {
        None
    }
}

/// The encoded difference of the points that `a` and `b` encode; `None` where one is not a
/// point.
pub open spec fn g1_sub_bytes(a: Seq<u8>, b: Seq<u8>) -> Option<Seq<u8>> {
    if g1_bytes_valid(a) && g1_bytes_valid(b) {
        Some(enc_g1(g1_of(point_sub(g1_bytes_point(a), g1_bytes_point(b)))))
    } else {
        None
    }
}

/// Whether each item is a point of the group with a scalar below r.
pub open spec fn multiexp_items_valid(items: Seq<(G1, U256)>) -> bool {
    forall|i: int|
        0 <= i < items.len() ==> g1_valid(#[trigger] items[i].0) && items[i].1.value()
            < fr_modulus()
}

/// The affine points and scalar values of the items.
pub open spec fn multiexp_points(items: Seq<(G1, U256)>) -> Seq<(Option<(int, int)>, nat)> {
    items.map_values(|it: (G1, U256)| (g1_affine(it.0), it.1.value()))
}

/// The encoded multi-exponentiation of the (point, scalar) list that `data` encodes; `None`
/// where `data` is not such a list or an item is not a point with a scalar below r.
pub open spec fn g1_multiexp_bytes(data: Seq<u8>) -> Option<Seq<u8>> {
    match dec_list(data, 96, g1_scalar_dec()) {
        Some(items) => if multiexp_items_valid(items) {
            Some(enc_g1(g1_of(multiexp(multiexp_points(items)))))
        } else {
            None
        },
        None => None,
    }
}

/// Whether the product of the pairings of the list of (G1, G2) pairs that `data` encodes
/// is one, as zeropool-bn computes it; `None` where it refuses to read the list.
pub uninterp spec fn pairing_check_output(data: Seq<u8>) -> Option<bool>;

/// zeropool-bn's `G1 + G1` on points read from `a` and `b` with its borsh decoding and
/// written back with its borsh encoding. Claimed, from zeropool-bn's source: decoding takes
/// exactly 64 bytes, two coordinates of 32 little-endian bytes each below q, reads `[0, 0]`
/// as infinity and refuses any other point off `y^2 = x^3 + 3` (G1 has no subgroup check);
/// the sum is the group sum; encoding writes the affine coordinates, infinity as `[0, 0]`.
#[verifier::external_body]
fn bn_g1_add(a: &[u8], b: &[u8]) -> (r: Result<Vec<u8>, std::io::Error>)
    ensures
        r is Ok <==> g1_add_bytes(a@, b@) is Some,
        r matches Ok(v) ==> g1_add_bytes(a@, b@) == Some(v@),
{
    let x = zeropool_bn::G1::try_from_slice(a)?;
    let y = zeropool_bn::G1::try_from_slice(b)?;
    (x + y).try_to_vec()
}

/// zeropool-bn's `G1 - G1` (the sum with the negation), read and written as for
/// `bn_g1_add`. Claimed: the result is the encoded group difference, under the same
/// decoding.
#[verifier::external_body]
fn bn_g1_sub(a: &[u8], b: &[u8]) -> (r: Result<Vec<u8>, std::io::Error>)
    ensures
        r is Ok <==> g1_sub_bytes(a@, b@) is Some,
        r matches Ok(v) ==> g1_sub_bytes(a@, b@) == Some(v@),
{
    let x = zeropool_bn::G1::try_from_slice(a)?;
    let y = zeropool_bn::G1::try_from_slice(b)?;
    (x - y).try_to_vec()
}

/// zeropool-bn's `G1::multiexp` on the list `Vec<(G1, Fr)>` read from `data` with borsh
/// (a four-byte count, then per item a point decoded as for `bn_g1_add` and a scalar of 32
/// little-endian bytes below r, and no bytes left over), written back with borsh. Claimed:
/// the result is the encoded sum of the scalar multiples of the points.
#[verifier::external_body]
fn bn_g1_multiexp(data: &[u8]) -> (r: Result<Vec<u8>, std::io::Error>)
    ensures
        r is Ok <==> g1_multiexp_bytes(data@) is Some,
        r matches Ok(v) ==> g1_multiexp_bytes(data@) == Some(v@),
{
    let items = Vec::<(zeropool_bn::G1, zeropool_bn::Fr)>::try_from_slice(data)?;
    zeropool_bn::G1::multiexp(&items).try_to_vec()
}

/// Whether each coordinate of a G2 value is below q.
pub open spec fn g2_coords_below_q(p: G2) -> bool {
    &&& p[0].value() < fq_modulus()
    &&& p[1].value() < fq_modulus()
    &&& p[2].value() < fq_modulus()
    &&& p[3].value() < fq_modulus()
}

/// Whether `data` is a list of (G1, G2) pairs whose G1 halves are points of the group and
/// whose G2 coordinates are below q; zeropool-bn reads no other input for a pairing check.
pub open spec fn pairing_input_readable(data: Seq<u8>) -> bool {
    match dec_list(data, 192, g1_g2_dec()) {
        Some(items) => forall|i: int|
            0 <= i < items.len() ==> g1_valid(#[trigger] items[i].0) && g2_coords_below_q(
                items[i].1,
            ),
        None => false,
    }
}

/// zeropool-bn's `pairing_batch` on the list `Vec<(G1, G2)>` read from `data` with borsh,
/// compared with `Gt::one()`. Claimed: the result is the name `pairing_check_output`
/// applied to `data`; and, from the borsh decoding, the list is read only where `data` is a
/// four-byte count and exactly that many 192-byte items, each a G1 point read as for
/// `bn_g1_add` followed by a G2 value of four coordinates below q. Not stated: G2 points
/// must also lie on the twist and in the subgroup of order r, and the value of the check.
#[verifier::external_body]
fn bn_pairing_check(data: &[u8]) -> (r: Result<bool, std::io::Error>)
    ensures
        r is Ok <==> pairing_check_output(data@) is Some,
        r matches Ok(v) ==> pairing_check_output(data@) == Some(v),
        r is Ok ==> pairing_input_readable(data@),
{
    let items = Vec::<(zeropool_bn::G1, zeropool_bn::G2)>::try_from_slice(data)?;
    Ok(zeropool_bn::pairing_batch(&items) == zeropool_bn::Gt::one())
}

/// The 64 zero bytes that encode the point at infinity.
pub open spec fn g1_zero_bytes() -> Seq<u8> {
    Seq::new(64, |_i: int| 0u8)
}

/// The running sum of signed points, starting from the point at infinity: a point with
/// `true` is subtracted, one with `false` added; `None` once a step is refused.
pub open spec fn g1_fold(items: Seq<(bool, G1)>) -> Option<Seq<u8>>
    decreases items.len(),
{
    if items.len() == 0 {
        Some(g1_zero_bytes())
    } else {
        match g1_fold(items.drop_last()) {
            Some(acc) => if items.last().0 {
                g1_sub_bytes(acc, enc_g1(items.last().1))
            } else {
                g1_add_bytes(acc, enc_g1(items.last().1))
            },
            None => None,
        }
    }
}

/// The result of the G1 sum on the bytes `data`.
pub open spec fn g1_sum_output(data: Seq<u8>) -> Option<Seq<u8>> {
    match dec_signed_points(data) {
        Some(items) => g1_fold(items),
        None => None,
    }
}

/// The sum of the signed points that `data` encodes, encoded: a point marked `true` is
/// subtracted, one marked `false` added, starting from the point at infinity.
pub fn alt_bn128_g1_sum(data: &[u8]) -> (r: Result<Vec<u8>, AltBn128Error>)
    ensures
        match r {
            Ok(v) => g1_sum_output(data@) == Some(v@),
            Err(_) => g1_sum_output(data@) is None,
        },
{
    let items = match decode_signed_points(data) {
        Some(items) => items,
        None => return Err(AltBn128Error::InvalidInput),
    };
    let mut acc: Vec<u8> = Vec::new();
    for k in 0..64
        invariant
            acc@ == Seq::new(k as nat, |_i: int| 0u8),
    {
        acc.push(0u8);
        assert(acc@ =~= Seq::new((k + 1) as nat, |_i: int| 0u8));
    }
    assert(items@.take(0) =~= Seq::<(bool, G1)>::empty());
    let n = items.len();
    for i in 0..n
        invariant
            n == items@.len(),
            dec_signed_points(data@) == Some(items@),
            g1_fold(items@.take(i as int)) == Some(acc@),
    {
        let (sign, p) = items[i];
        let pb = g1_to_bytes(&p);
        let step = if sign {
            bn_g1_sub(acc.as_slice(), pb.as_slice())
        } else {
            bn_g1_add(acc.as_slice(), pb.as_slice())
        };
        assert(items@.take(i + 1).drop_last() =~= items@.take(i as int));
        match step {
            Ok(next) => {
                acc = next;
            },
            Err(_) => {
                proof {
                    assert(g1_fold(items@.take(i + 1)) is None);
                    lemma_fold_stays_refused(items@, (i + 1) as nat);
                    assert(items@.take(n as int) =~= items@);
                }
                return Err(AltBn128Error::InvalidInput);
            },
        }
    }
    assert(items@.take(n as int) =~= items@);
    Ok(acc)
}

/// Once a step of the running sum is refused, the whole sum is.
pub proof fn lemma_fold_stays_refused(items: Seq<(bool, G1)>, k: nat)
    requires
        k <= items.len(),
        g1_fold(items.take(k as int)) is None,
    ensures
        g1_fold(items) is None,
    decreases items.len() - k,
{
    if k < items.len() {
        assert(items.take(k + 1 as int).drop_last() =~= items.take(k as int));
        lemma_fold_stays_refused(items, k + 1);
    } else {
        assert(items.take(k as int) =~= items);
    }
}

/// The multi-exponentiation of the (point, scalar) pairs that `data` encodes, encoded.
pub fn alt_bn128_g1_multiexp(data: &[u8]) -> (r: Result<Vec<u8>, AltBn128Error>)
    ensures
        match r {
            Ok(v) => g1_multiexp_bytes(data@) == Some(v@),
            Err(_) => g1_multiexp_bytes(data@) is None,
        },
{
    match bn_g1_multiexp(data) {
        Ok(v) => Ok(v),
        Err(_) => Err(AltBn128Error::InvalidInput),
    }
}

/// Whether the product of the pairings of the (G1, G2) pairs that `data` encodes is one.
pub fn alt_bn128_pairing_check(data: &[u8]) -> (r: Result<bool, AltBn128Error>)
    ensures
        match r {
            Ok(v) => pairing_check_output(data@) == Some(v),
            Err(_) => pairing_check_output(data@) is None,
        },
        r is Ok ==> pairing_input_readable(data@),
{
    match bn_pairing_check(data) {
        Ok(v) => Ok(v),
        Err(_) => Err(AltBn128Error::InvalidInput),
    }
}

} // verus!
