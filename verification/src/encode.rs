//! Writing the inputs of the curve operations as bytes.
use vstd::prelude::*;
use vstd::bytes::{u32_to_le_bytes, u64_to_le_bytes, spec_u32_to_le_bytes};
use crate::types::{U256, G1, G2};
use crate::codec::{
    enc_u256, enc_g1, enc_g2, concat_map, lemma_concat_push, enc_list, enc_signed_points,
    enc_multiexp_input, enc_pairing_input, signed_g1_enc, g1_scalar_enc, g1_g2_enc,
};

verus! {

broadcast use vstd::array::group_array_axioms;

/// Appends the 32 bytes of `u`.
fn push_u256(out: &mut Vec<u8>, u: U256)
    ensures
        final(out)@ == old(out)@ + enc_u256(u),
{
    let mut x0 = u64_to_le_bytes(u.0[0]);
    let mut x1 = u64_to_le_bytes(u.0[1]);
    let mut x2 = u64_to_le_bytes(u.0[2]);
    let mut x3 = u64_to_le_bytes(u.0[3]);
    out.append(&mut x0);
    out.append(&mut x1);
    out.append(&mut x2);
    out.append(&mut x3);
    assert(out@ =~= old(out)@ + enc_u256(u));
}

/// Appends the 64 bytes of `p`.
fn push_g1(out: &mut Vec<u8>, p: &G1)
    ensures
        final(out)@ == old(out)@ + enc_g1(*p),
{
    push_u256(out, p[0]);
    push_u256(out, p[1]);
    assert(out@ =~= old(out)@ + enc_g1(*p));
}

/// The 64 bytes of `p`.
pub fn g1_to_bytes(p: &G1) -> (r: Vec<u8>)
    ensures
        r@ == enc_g1(*p),
{
    let mut out: Vec<u8> = Vec::new();
    push_g1(&mut out, p);
    assert(out@ =~= enc_g1(*p));
    out
}

/// Appends the 128 bytes of `q`.
fn push_g2(out: &mut Vec<u8>, q: &G2)
    ensures
        final(out)@ == old(out)@ + enc_g2(*q),
{
    push_u256(out, q[0]);
    push_u256(out, q[1]);
    push_u256(out, q[2]);
    push_u256(out, q[3]);
    assert(out@ =~= old(out)@ + enc_g2(*q));
}

/// The bytes of a list whose items `write_item` writes as `f` does; `None` where the list
/// is too long for its length to fit in four bytes.
fn encode_list<T: Copy, F: Fn(&T) -> Vec<u8>>(
    v: &[T],
    write_item: F,
    Ghost(f): Ghost<spec_fn(T) -> Seq<u8>>,
) -> (r: Option<Vec<u8>>)
    requires
        forall|x: &T| #[trigger] write_item.requires((x,)),
        forall|x: &T, b: Vec<u8>| #[trigger] write_item.ensures((x,), b) ==> b@ == f(*x),
    ensures
        match r {
            Some(b) => v@.len() <= u32::MAX && b@ == enc_list(v@, f),
            None => v@.len() > u32::MAX,
        },
{
    let n = v.len();
    if n > u32::MAX as usize {
        return None;
    }
    let mut out = u32_to_le_bytes(n as u32);
    assert(v@.take(0) =~= Seq::<T>::empty());
    assert(out@ =~= spec_u32_to_le_bytes(n as u32) + concat_map(v@.take(0), f));
    for i in 0..n
        invariant
            n == v@.len(),
            forall|x: &T| #[trigger] write_item.requires((x,)),
            forall|x: &T, b: Vec<u8>| #[trigger] write_item.ensures((x,), b) ==> b@ == f(*x),
            out@ == spec_u32_to_le_bytes(n as u32) + concat_map(v@.take(i as int), f),
    {
        let item = v[i];
        let ghost before = out@;
        let mut bytes = write_item(&item);
        out.append(&mut bytes);
        proof {
            lemma_concat_push(v@.take(i as int), item, f);
            assert(v@.take(i + 1) =~= v@.take(i as int).push(item));
            assert(out@ =~= before + f(item));
        }
    }
    assert(v@.take(n as int) =~= v@);
    Some(out)
}

/// The bytes of a list of signed points; `None` where the list is too long for its
/// length to fit in four bytes.
pub fn encode_signed_points(v: &[(bool, G1)]) -> (r: Option<Vec<u8>>)
    ensures
        match r {
            Some(b) => v@.len() <= u32::MAX && b@ == enc_signed_points(v@),
            None => v@.len() > u32::MAX,
        },
{
    let write_item = |it: &(bool, G1)| -> (r: Vec<u8>)
        ensures
            r@ == signed_g1_enc()(*it),
        {
            let mut out: Vec<u8> = Vec::new();
            out.push(if it.0 { 1u8 } else { 0u8 });
            push_g1(&mut out, &it.1);
            assert(out@ =~= signed_g1_enc()(*it));
            out
        };
    encode_list(v, write_item, Ghost(signed_g1_enc()))
}

/// The bytes of a list of points with scalars; `None` where the list is too long for its
/// length to fit in four bytes.
pub fn encode_multiexp_input(v: &[(G1, U256)]) -> (r: Option<Vec<u8>>)
    ensures
        match r {
            Some(b) => v@.len() <= u32::MAX && b@ == enc_multiexp_input(v@),
            None => v@.len() > u32::MAX,
        },
{
    let write_item = |it: &(G1, U256)| -> (r: Vec<u8>)
        ensures
            r@ == g1_scalar_enc()(*it),
        {
            let mut out: Vec<u8> = Vec::new();
            push_g1(&mut out, &it.0);
            push_u256(&mut out, it.1);
            assert(out@ =~= g1_scalar_enc()(*it));
            out
        };
    encode_list(v, write_item, Ghost(g1_scalar_enc()))
}

/// The bytes of a list of point pairs; `None` where the list is too long for its length to
/// fit in four bytes.
pub fn encode_pairing_input(v: &[(G1, G2)]) -> (r: Option<Vec<u8>>)
    ensures
        match r {
            Some(b) => v@.len() <= u32::MAX && b@ == enc_pairing_input(v@),
            None => v@.len() > u32::MAX,
        },
{
    let write_item = |it: &(G1, G2)| -> (r: Vec<u8>)
        ensures
            r@ == g1_g2_enc()(*it),
        {
            let mut out: Vec<u8> = Vec::new();
            push_g1(&mut out, &it.0);
            push_g2(&mut out, &it.1);
            assert(out@ =~= g1_g2_enc()(*it));
            out
        };
    encode_list(v, write_item, Ghost(g1_g2_enc()))
}

} // verus!
