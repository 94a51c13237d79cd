//! Reading verification keys, proofs, public inputs and signed points from bytes.
use vstd::prelude::*;
use vstd::bytes::{u32_from_le_bytes, u64_from_le_bytes, spec_u32_from_le_bytes};
use vstd::slice::slice_subrange;
use crate::types::{U256, G1, G2, VK, Proof};
use crate::codec::{
    dec_u256, dec_g1, dec_g2, dec_chunks, dec_list, dec_vk, dec_proof, dec_inputs,
    dec_signed_points, g1_item_dec, u256_item_dec, signed_g1_dec, lemma_chunks_len,
};

verus! {

broadcast use vstd::array::group_array_axioms;

/// The integer in the 32 bytes of `b` from `off` on.
pub fn read_u256(b: &[u8], off: usize) -> (r: U256)
    requires
        off + 32 <= b@.len(),
    ensures
        r == dec_u256(b@.subrange(off as int, off + 32)),
{
    let _len = b.len();
    let x0 = u64_from_le_bytes(slice_subrange(b, off, off + 8));
    let x1 = u64_from_le_bytes(slice_subrange(b, off + 8, off + 16));
    let x2 = u64_from_le_bytes(slice_subrange(b, off + 16, off + 24));
    let x3 = u64_from_le_bytes(slice_subrange(b, off + 24, off + 32));
    proof {
        let c = b@.subrange(off as int, off + 32);
        assert(c.subrange(0, 8) =~= b@.subrange(off as int, off + 8));
        assert(c.subrange(8, 16) =~= b@.subrange(off + 8, off + 16));
        assert(c.subrange(16, 24) =~= b@.subrange(off + 16, off + 24));
        assert(c.subrange(24, 32) =~= b@.subrange(off + 24, off + 32));
    }
    U256([x0, x1, x2, x3])
}

/// The G1 point in the 64 bytes of `b` from `off` on.
pub fn read_g1(b: &[u8], off: usize) -> (r: G1)
    requires
        off + 64 <= b@.len(),
    ensures
        r == dec_g1(b@.subrange(off as int, off + 64)),
{
    let _len = b.len();
    let x = read_u256(b, off);
    let y = read_u256(b, off + 32);
    proof {
        let c = b@.subrange(off as int, off + 64);
        assert(c.subrange(0, 32) =~= b@.subrange(off as int, off + 32));
        assert(c.subrange(32, 64) =~= b@.subrange(off + 32, off + 64));
    }
    [x, y]
}

/// The G2 point in the 128 bytes of `b` from `off` on.
pub fn read_g2(b: &[u8], off: usize) -> (r: G2)
    requires
        off + 128 <= b@.len(),
    ensures
        r == dec_g2(b@.subrange(off as int, off + 128)),
{
    let _len = b.len();
    let x0 = read_u256(b, off);
    let x1 = read_u256(b, off + 32);
    let y0 = read_u256(b, off + 64);
    let y1 = read_u256(b, off + 96);
    proof {
        let c = b@.subrange(off as int, off + 128);
        assert(c.subrange(0, 32) =~= b@.subrange(off as int, off + 32));
        assert(c.subrange(32, 64) =~= b@.subrange(off + 32, off + 64));
        assert(c.subrange(64, 96) =~= b@.subrange(off + 64, off + 96));
        assert(c.subrange(96, 128) =~= b@.subrange(off + 96, off + 128));
    }
    [x0, x1, y0, y1]
}

/// The item count of the list that starts at `off`, where the bytes after the count hold
/// exactly that many items of `w` bytes.
fn list_count(b: &[u8], off: usize, w: usize) -> (r: Option<usize>)
    requires
        off <= b@.len(),
    ensures
        match r {
            Some(n) => {
                &&& off + 4 <= b@.len()
                &&& n == spec_u32_from_le_bytes(b@.subrange(off as int, off + 4))
                &&& b@.len() == off + 4 + n * w
            },
            None => b@.len() < off + 4 || b@.len() - off - 4 != spec_u32_from_le_bytes(
                b@.subrange(off as int, off + 4),
            ) * w,
        },
{
    if b.len() - off < 4 {
        return None;
    }
    let n = u32_from_le_bytes(slice_subrange(b, off, off + 4)) as usize;
    match n.checked_mul(w) {
        Some(total) => {
            if b.len() - off - 4 == total {
                Some(n)
            } else {
                None
            }
        },
        None => None,
    }
}

/// The list of `w`-byte items, each read by `read_item` as `g` reads it, that the bytes of
/// `b` from `off` on stand for.
fn read_list<T, F: Fn(&[u8], usize) -> Option<T>>(
    b: &[u8],
    off: usize,
    w: usize,
    read_item: F,
    Ghost(g): Ghost<spec_fn(Seq<u8>) -> Option<T>>,
) -> (r: Option<Vec<T>>)
    requires
        off <= b@.len(),
        w > 0,
        forall|pos: usize| pos + w <= b@.len() ==> #[trigger] read_item.requires((b, pos)),
        forall|pos: usize, res: Option<T>|
            pos + w <= b@.len() && #[trigger] read_item.ensures((b, pos), res) ==> res == g(
                b@.subrange(pos as int, pos + w),
            ),
    ensures
        match r {
            Some(v) => dec_list(b@.skip(off as int), w as nat, g) == Some(v@),
            None => dec_list(b@.skip(off as int), w as nat, g) is None,
        },
{
    let _len = b.len();
    let ghost all = b@.skip(off as int);
    let ghost body = all.skip(4);
    proof {
        if all.len() >= 4 {
            assert(all.take(4) =~= b@.subrange(off as int, off + 4));
        }
    }
    let n = match list_count(b, off, w) {
        Some(n) => n,
        None => {
            proof {
                if dec_list(all, w as nat, g) is Some {
                    lemma_chunks_len(body, spec_u32_from_le_bytes(all.take(4)) as nat, w as nat, g);
                }
            }
            return None;
        },
    };
    let mut out: Vec<T> = Vec::new();
    assert(body.skip(0) =~= body);
    assert(out@ + dec_chunks(body, n as nat, w as nat, g).unwrap_or(Seq::empty()) =~= dec_chunks(
        body,
        n as nat,
        w as nat,
        g,
    ).unwrap_or(Seq::empty()));
    let mut pos = off + 4;
    proof {
        assert(0 * w == 0) by (nonlinear_arith);
    }
    for i in 0..n
        invariant
            b@.len() == off + 4 + n * w,
            b@.len() <= usize::MAX,
            w > 0,
            off + 4 <= b@.len(),
            n == spec_u32_from_le_bytes(b@.subrange(off as int, off + 4)),
            all == b@.skip(off as int),
            all.take(4) == b@.subrange(off as int, off + 4),
            body == all.skip(4),
            pos == off + 4 + i * w,
            out@.len() == i,
            forall|pos: usize| pos + w <= b@.len() ==> #[trigger] read_item.requires((b, pos)),
            forall|pos: usize, res: Option<T>|
                pos + w <= b@.len() && #[trigger] read_item.ensures((b, pos), res) ==> res == g(
                    b@.subrange(pos as int, pos + w),
                ),
            dec_chunks(body, n as nat, w as nat, g) == match dec_chunks(
                body.skip(i * w),
                (n - i) as nat,
                w as nat,
                g,
            ) {
                Some(rest) => Some(out@ + rest),
                None => None,
            },
    {
        let ghost cur = body.skip(i * w);
        proof {
            assert(i * w + w <= n * w) by (nonlinear_arith)
                requires
                    i < n,
            ;
            assert((i + 1) * w == i * w + w) by (nonlinear_arith);
            assert(cur.len() == (n - i) * w) by (nonlinear_arith)
                requires
                    cur.len() == body.len() - i * w,
                    body.len() == n * w,
            ;
            assert((n - i) * w >= w) by (nonlinear_arith)
                requires
                    i < n,
            ;
            assert(cur.take(w as int) =~= b@.subrange(pos as int, pos + w));
            assert(cur.skip(w as int) =~= body.skip((i + 1) * w));
        }
        let item = match read_item(b, pos) {
            Some(x) => x,
            None => {
                proof {
                    assert(dec_chunks(cur, (n - i) as nat, w as nat, g) is None);
                    assert(dec_chunks(body, n as nat, w as nat, g) is None);
                    assert(spec_u32_from_le_bytes(all.take(4)) as nat == n as nat);
                }
                return None;
            },
        };
        proof {
            match dec_chunks(cur.skip(w as int), (n - i - 1) as nat, w as nat, g) {
                Some(rest) => {
                    assert(out@.push(item) + rest =~= out@ + (seq![item] + rest));
                },
                None => {},
            }
        }
        out.push(item);
        pos = pos + w;
    }
    proof {
        assert(body.skip(n * w).len() == 0) by {
            assert(body.len() == n * w);
        }
        assert(out@ + Seq::<T>::empty() =~= out@);
    }
    Some(out)
}

/// The list of G1 points that the bytes of `b` from `off` on stand for.
pub fn read_g1_list(b: &[u8], off: usize) -> (r: Option<Vec<G1>>)
    requires
        off <= b@.len(),
    ensures
        match r {
            Some(v) => dec_list(b@.skip(off as int), 64, g1_item_dec()) == Some(v@),
            None => dec_list(b@.skip(off as int), 64, g1_item_dec()) is None,
        },
{
    let read_item = |b: &[u8], pos: usize| -> (r: Option<G1>)
        requires
            pos + 64 <= b@.len(),
        ensures
            r == g1_item_dec()(b@.subrange(pos as int, pos + 64)),
        { Some(read_g1(b, pos)) };
    read_list(b, off, 64, read_item, Ghost(g1_item_dec()))
}

/// The list of integers that the bytes of `b` from `off` on stand for.
pub fn read_u256_list(b: &[u8], off: usize) -> (r: Option<Vec<U256>>)
    requires
        off <= b@.len(),
    ensures
        match r {
            Some(v) => dec_list(b@.skip(off as int), 32, u256_item_dec()) == Some(v@),
            None => dec_list(b@.skip(off as int), 32, u256_item_dec()) is None,
        },
{
    let read_item = |b: &[u8], pos: usize| -> (r: Option<U256>)
        requires
            pos + 32 <= b@.len(),
        ensures
            r == u256_item_dec()(b@.subrange(pos as int, pos + 32)),
        { Some(read_u256(b, pos)) };
    read_list(b, off, 32, read_item, Ghost(u256_item_dec()))
}

/// The list of signed points that the bytes of `b` from `off` on stand for.
pub fn read_signed_points(b: &[u8], off: usize) -> (r: Option<Vec<(bool, G1)>>)
    requires
        off <= b@.len(),
    ensures
        match r {
            Some(v) => dec_list(b@.skip(off as int), 65, signed_g1_dec()) == Some(v@),
            None => dec_list(b@.skip(off as int), 65, signed_g1_dec()) is None,
        },
{
    let read_item = |b: &[u8], pos: usize| -> (r: Option<(bool, G1)>)
        requires
            pos + 65 <= b@.len(),
        ensures
            r == signed_g1_dec()(b@.subrange(pos as int, pos + 65)),
        {
            let _len = b.len();
            proof {
                assert(b@.subrange(pos as int, pos + 65).skip(1) =~= b@.subrange(pos + 1, pos + 65));
            }
            let sign = b[pos];
            if sign == 0 {
                Some((false, read_g1(b, pos + 1)))
            } else if sign == 1 {
                Some((true, read_g1(b, pos + 1)))
            } else {
                None
            }
        };
    read_list(b, off, 65, read_item, Ghost(signed_g1_dec()))
}

/// Reads a verification key from the whole of `b`.
pub fn decode_vk(b: &[u8]) -> (r: Option<VK>)
    ensures
        match r {
            Some(v) => dec_vk(b@) == Some(v@),
            None => dec_vk(b@) is None,
        },
{
    if b.len() < 448 {
        return None;
    }
    let alpha = read_g1(b, 0);
    let beta = read_g2(b, 64);
    let gamma = read_g2(b, 192);
    let delta = read_g2(b, 320);
    match read_g1_list(b, 448) {
        Some(ic) => Some(VK { alpha, beta, gamma, delta, ic }),
        None => None,
    }
}

/// Reads a proof from the whole of `b`.
pub fn decode_proof(b: &[u8]) -> (r: Option<Proof>)
    ensures
        r == dec_proof(b@),
{
    if b.len() != 256 {
        return None;
    }
    let a = read_g1(b, 0);
    let pb = read_g2(b, 64);
    let c = read_g1(b, 192);
    Some(Proof { a, b: pb, c })
}

/// Reads a list of public inputs from the whole of `b`.
pub fn decode_inputs(b: &[u8]) -> (r: Option<Vec<U256>>)
    ensures
        match r {
            Some(v) => dec_inputs(b@) == Some(v@),
            None => dec_inputs(b@) is None,
        },
{
    proof {
        assert(b@.skip(0) =~= b@);
    }
    read_u256_list(b, 0)
}

/// Reads a list of signed points from the whole of `b`.
pub fn decode_signed_points(b: &[u8]) -> (r: Option<Vec<(bool, G1)>>)
    ensures
        match r {
            Some(v) => dec_signed_points(b@) == Some(v@),
            None => dec_signed_points(b@) is None,
        },
{
    proof {
        assert(b@.skip(0) =~= b@);
    }
    read_signed_points(b, 0)
}

} // verus!
