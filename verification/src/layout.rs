//! Where each coordinate stands in the byte format, stated against the plain little-endian
//! reading of bytes: byte `i` of a 32-byte slot weighs `256^i`.
use vstd::prelude::*;
use vstd::arithmetic::power::pow;
use vstd::bytes::{spec_u64_to_le_bytes, spec_u64_to_le_bytes_open, spec_u64_to_le_bytes_to_open};
use crate::types::{U256, G1, G2, Proof, VKModel};
use crate::codec::{
    enc_u256, dec_u256, enc_g1, dec_g1, enc_g2, dec_g2, dec_proof, dec_vk, lemma_u256_roundtrip,
    lemma_u256_bytes_roundtrip, concat_map, lemma_concat_len, enc_pairing_input, g1_g2_enc, lemma_g1_roundtrip, lemma_g2_roundtrip,
};
use vstd::bytes::{spec_u32_to_le_bytes, spec_u32_from_le_bytes, lemma_auto_spec_u32_to_from_le_bytes};

verus! {

/// The integer that bytes stand for read little-endian: `b[0] + 256 * b[1] + ...`.
pub open spec fn le_value(b: Seq<u8>) -> int
    decreases b.len(),
{
    if b.len() == 0 {
        0
    } else {
        b[0] as int + 256 * le_value(b.skip(1))
    }
}

/// The little-endian value of two byte strings one after the other.
pub proof fn lemma_le_value_concat(a: Seq<u8>, b: Seq<u8>)
    ensures
        le_value(a + b) == le_value(a) + pow(256, a.len()) * le_value(b),
    decreases a.len(),
{
    if a.len() == 0 {
        reveal(pow);
        assert(a + b =~= b);
    } else {
        lemma_le_value_concat(a.skip(1), b);
        assert((a + b).skip(1) =~= a.skip(1) + b);
        assert((a + b)[0] == a[0]);
        let la = le_value(a.skip(1));
        let lb = le_value(b);
        let p = pow(256, (a.len() - 1) as nat);
        reveal(pow);
        assert(pow(256, a.len()) == 256 * p);
        assert(256 * (la + p * lb) == 256 * la + (256 * p) * lb) by (nonlinear_arith);
    }
}

/// The eight little-endian bytes of a 64-bit integer stand for it.
pub proof fn lemma_le_value_u64(x: u64)
    ensures
        le_value(spec_u64_to_le_bytes(x)) == x,
{
    spec_u64_to_le_bytes_to_open(x);
    let s = spec_u64_to_le_bytes_open(x);
    reveal_with_fuel(le_value, 9);
    assert(s.skip(1).skip(1).skip(1).skip(1).skip(1).skip(1).skip(1).skip(1).len() == 0);
    let b0 = (x & 0xff) as u8;
    let b1 = ((x >> 8) & 0xff) as u8;
    let b2 = ((x >> 16) & 0xff) as u8;
    let b3 = ((x >> 24) & 0xff) as u8;
    let b4 = ((x >> 32) & 0xff) as u8;
    let b5 = ((x >> 40) & 0xff) as u8;
    let b6 = ((x >> 48) & 0xff) as u8;
    let b7 = ((x >> 56) & 0xff) as u8;
    assert(s.skip(1)[0] == b1);
    assert(s.skip(1).skip(1)[0] == b2);
    assert(s.skip(1).skip(1).skip(1)[0] == b3);
    assert(s.skip(1).skip(1).skip(1).skip(1)[0] == b4);
    assert(s.skip(1).skip(1).skip(1).skip(1).skip(1)[0] == b5);
    assert(s.skip(1).skip(1).skip(1).skip(1).skip(1).skip(1)[0] == b6);
    assert(s.skip(1).skip(1).skip(1).skip(1).skip(1).skip(1).skip(1)[0] == b7);
    assert(x == b0 as u64 + 256 * (b1 as u64 + 256 * (b2 as u64 + 256 * (b3 as u64 + 256 * (b4 as u64
        + 256 * (b5 as u64 + 256 * (b6 as u64 + 256 * (b7 as u64)))))))) by (bit_vector)
        requires
            b0 == (x & 0xff) as u8,
            b1 == ((x >> 8) & 0xff) as u8,
            b2 == ((x >> 16) & 0xff) as u8,
            b3 == ((x >> 24) & 0xff) as u8,
            b4 == ((x >> 32) & 0xff) as u8,
            b5 == ((x >> 40) & 0xff) as u8,
            b6 == ((x >> 48) & 0xff) as u8,
            b7 == ((x >> 56) & 0xff) as u8,
    ;
}

/// The 32 bytes of a 256-bit integer, read little-endian, stand for its value.
pub proof fn lemma_le_value_u256(u: U256)
    ensures
        le_value(enc_u256(u)) == u.value(),
{
    let (a0, a1, a2, a3) = (
        spec_u64_to_le_bytes(u.0[0]),
        spec_u64_to_le_bytes(u.0[1]),
        spec_u64_to_le_bytes(u.0[2]),
        spec_u64_to_le_bytes(u.0[3]),
    );
    lemma_le_value_u64(u.0[0]);
    lemma_le_value_u64(u.0[1]);
    lemma_le_value_u64(u.0[2]);
    lemma_le_value_u64(u.0[3]);
    vstd::bytes::lemma_auto_spec_u64_to_from_le_bytes();
    lemma_le_value_concat(a2, a3);
    lemma_le_value_concat(a1, a2 + a3);
    lemma_le_value_concat(a0, a1 + a2 + a3);
    assert(a0 + a1 + a2 + a3 =~= a0 + (a1 + (a2 + a3)));
    assert(a1 + a2 + a3 =~= a1 + (a2 + a3));
    reveal_with_fuel(pow, 9);
    assert(pow(256, 8) == 0x1_0000_0000_0000_0000);
    let b = 0x1_0000_0000_0000_0000int;
    let (l0, l1, l2, l3) = (u.0[0] as int, u.0[1] as int, u.0[2] as int, u.0[3] as int);
    assert(l0 + b * (l1 + b * (l2 + b * l3)) == l0 + l1 * b + l2 * b * b + l3 * b * b * b)
        by (nonlinear_arith);
}

/// The integer read from 32 bytes is their little-endian value.
pub proof fn lemma_le_value_dec_u256(c: Seq<u8>)
    requires
        c.len() == 32,
    ensures
        dec_u256(c).value() == le_value(c),
{
    lemma_u256_bytes_roundtrip(c);
    lemma_le_value_u256(dec_u256(c));
}

/// A G1 point is written x first, then y, each as its 32 little-endian bytes.
pub proof fn lemma_g1_layout(p: G1)
    ensures
        le_value(enc_g1(p).subrange(0, 32)) == p[0].value(),
        le_value(enc_g1(p).subrange(32, 64)) == p[1].value(),
{
    lemma_u256_roundtrip(p[0]);
    lemma_u256_roundtrip(p[1]);
    assert(enc_g1(p).subrange(0, 32) =~= enc_u256(p[0]));
    assert(enc_g1(p).subrange(32, 64) =~= enc_u256(p[1]));
    lemma_le_value_u256(p[0]);
    lemma_le_value_u256(p[1]);
}

/// A G2 value `[x.re, x.im, y.re, y.im]` is written in that order, each coordinate as its
/// 32 little-endian bytes: the real part of each Fq2 element first, as zeropool-bn reads it.
pub proof fn lemma_g2_layout(q: G2)
    ensures
        le_value(enc_g2(q).subrange(0, 32)) == q[0].value(),
        le_value(enc_g2(q).subrange(32, 64)) == q[1].value(),
        le_value(enc_g2(q).subrange(64, 96)) == q[2].value(),
        le_value(enc_g2(q).subrange(96, 128)) == q[3].value(),
{
    lemma_u256_roundtrip(q[0]);
    lemma_u256_roundtrip(q[1]);
    lemma_u256_roundtrip(q[2]);
    lemma_u256_roundtrip(q[3]);
    assert(enc_g2(q).subrange(0, 32) =~= enc_u256(q[0]));
    assert(enc_g2(q).subrange(32, 64) =~= enc_u256(q[1]));
    assert(enc_g2(q).subrange(64, 96) =~= enc_u256(q[2]));
    assert(enc_g2(q).subrange(96, 128) =~= enc_u256(q[3]));
    lemma_le_value_u256(q[0]);
    lemma_le_value_u256(q[1]);
    lemma_le_value_u256(q[2]);
    lemma_le_value_u256(q[3]);
}

/// Reading a G1 point takes x from the first 32 bytes and y from the next 32.
pub proof fn lemma_g1_read_layout(b: Seq<u8>)
    requires
        b.len() == 64,
    ensures
        dec_g1(b)[0].value() == le_value(b.subrange(0, 32)),
        dec_g1(b)[1].value() == le_value(b.subrange(32, 64)),
{
    lemma_le_value_dec_u256(b.subrange(0, 32));
    lemma_le_value_dec_u256(b.subrange(32, 64));
}

/// Reading a G2 value takes `x.re, x.im, y.re, y.im` from the four 32-byte slots in order.
pub proof fn lemma_g2_read_layout(b: Seq<u8>)
    requires
        b.len() == 128,
    ensures
        dec_g2(b)[0].value() == le_value(b.subrange(0, 32)),
        dec_g2(b)[1].value() == le_value(b.subrange(32, 64)),
        dec_g2(b)[2].value() == le_value(b.subrange(64, 96)),
        dec_g2(b)[3].value() == le_value(b.subrange(96, 128)),
{
    lemma_le_value_dec_u256(b.subrange(0, 32));
    lemma_le_value_dec_u256(b.subrange(32, 64));
    lemma_le_value_dec_u256(b.subrange(64, 96));
    lemma_le_value_dec_u256(b.subrange(96, 128));
}

/// A proof read from 256 bytes has `a` in bytes 0..64, `b` in 64..192 and `c` in 192..256,
/// each coordinate the little-endian value of its own 32-byte slot.
pub proof fn lemma_proof_read_layout(bytes: Seq<u8>)
    requires
        dec_proof(bytes) is Some,
    ensures
        ({
            let p = dec_proof(bytes).unwrap();
            &&& p.a[0].value() == le_value(bytes.subrange(0, 32))
            &&& p.a[1].value() == le_value(bytes.subrange(32, 64))
            &&& p.b[0].value() == le_value(bytes.subrange(64, 96))
            &&& p.b[1].value() == le_value(bytes.subrange(96, 128))
            &&& p.b[2].value() == le_value(bytes.subrange(128, 160))
            &&& p.b[3].value() == le_value(bytes.subrange(160, 192))
            &&& p.c[0].value() == le_value(bytes.subrange(192, 224))
            &&& p.c[1].value() == le_value(bytes.subrange(224, 256))
        }),
{
    let a = bytes.subrange(0, 64);
    let b = bytes.subrange(64, 192);
    let c = bytes.subrange(192, 256);
    lemma_g1_read_layout(a);
    lemma_g2_read_layout(b);
    lemma_g1_read_layout(c);
    assert(a.subrange(0, 32) =~= bytes.subrange(0, 32));
    assert(a.subrange(32, 64) =~= bytes.subrange(32, 64));
    assert(b.subrange(0, 32) =~= bytes.subrange(64, 96));
    assert(b.subrange(32, 64) =~= bytes.subrange(96, 128));
    assert(b.subrange(64, 96) =~= bytes.subrange(128, 160));
    assert(b.subrange(96, 128) =~= bytes.subrange(160, 192));
    assert(c.subrange(0, 32) =~= bytes.subrange(192, 224));
    assert(c.subrange(32, 64) =~= bytes.subrange(224, 256));
}

/// A key read from bytes has beta, gamma and delta at 64, 192 and 320, each as
/// `x.re, x.im, y.re, y.im` in 32-byte little-endian slots.
pub proof fn lemma_vk_read_layout(bytes: Seq<u8>)
    requires
        dec_vk(bytes) is Some,
    ensures
        ({
            let v = dec_vk(bytes).unwrap();
            &&& v.alpha[0].value() == le_value(bytes.subrange(0, 32))
            &&& v.alpha[1].value() == le_value(bytes.subrange(32, 64))
            &&& forall|k: int|
                0 <= k < 4 ==> {
                    &&& (#[trigger] v.beta[k]).value() == le_value(
                        bytes.subrange(64 + 32 * k, 96 + 32 * k),
                    )
                    &&& v.gamma[k].value() == le_value(bytes.subrange(192 + 32 * k, 224 + 32 * k))
                    &&& v.delta[k].value() == le_value(bytes.subrange(320 + 32 * k, 352 + 32 * k))
                }
        }),
{
    let a = bytes.subrange(0, 64);
    lemma_g1_read_layout(a);
    assert(a.subrange(0, 32) =~= bytes.subrange(0, 32));
    assert(a.subrange(32, 64) =~= bytes.subrange(32, 64));
    let v = dec_vk(bytes).unwrap();
    assert forall|k: int|
        0 <= k < 4 implies {
        &&& (#[trigger] v.beta[k]).value() == le_value(bytes.subrange(64 + 32 * k, 96 + 32 * k))
        &&& v.gamma[k].value() == le_value(bytes.subrange(192 + 32 * k, 224 + 32 * k))
        &&& v.delta[k].value() == le_value(bytes.subrange(320 + 32 * k, 352 + 32 * k))
    } by {
        let bb = bytes.subrange(64, 192);
        let gb = bytes.subrange(192, 320);
        let db = bytes.subrange(320, 448);
        lemma_g2_read_layout(bb);
        lemma_g2_read_layout(gb);
        lemma_g2_read_layout(db);
        assert(bb.subrange(32 * k, 32 * k + 32) =~= bytes.subrange(64 + 32 * k, 96 + 32 * k));
        assert(gb.subrange(32 * k, 32 * k + 32) =~= bytes.subrange(192 + 32 * k, 224 + 32 * k));
        assert(db.subrange(32 * k, 32 * k + 32) =~= bytes.subrange(320 + 32 * k, 352 + 32 * k));
        if k == 0 {
        } else if k == 1 {
        } else if k == 2 {
        } else {
        }
    }
}

/// Items of width `w` laid one after another: item `i` stands in bytes `w * i .. w * i + w`.
proof fn lemma_concat_item<T>(s: Seq<T>, f: spec_fn(T) -> Seq<u8>, w: nat, i: int)
    requires
        forall|x: T| #[trigger] f(x).len() == w,
        0 <= i < s.len(),
    ensures
        concat_map(s, f).subrange(w * i, w * i + w) == f(s[i]),
    decreases s.len(),
{
    lemma_concat_len(s, f, w);
    lemma_concat_len(s.skip(1), f, w);
    let c = concat_map(s, f);
    assert(c == f(s[0]) + concat_map(s.skip(1), f));
    if i == 0 {
        assert(c.subrange(0, w as int) =~= f(s[0]));
    } else {
        lemma_concat_item(s.skip(1), f, w, i - 1);
        assert(w * i == w + w * (i - 1)) by (nonlinear_arith);
        assert(w * (i - 1) + w <= (s.len() - 1) * w) by (nonlinear_arith)
            requires
                i - 1 < s.len() - 1,
        ;
        assert(c.subrange(w * i, w * i + w) =~= concat_map(s.skip(1), f).subrange(
            w * (i - 1),
            w * (i - 1) + w,
        ));
        assert(s.skip(1)[i - 1] == s[i]);
    }
}

/// The bytes handed to the pairing check: the number of pairs as four little-endian bytes,
/// then for pair `i`, from byte `4 + 192 * i`, the G1 point's `x, y` and the G2 point's
/// `x.re, x.im, y.re, y.im`, each the little-endian value of its own 32-byte slot.
pub proof fn lemma_pairing_input_layout(s: Seq<(G1, G2)>, i: int)
    requires
        s.len() <= u32::MAX,
        0 <= i < s.len(),
    ensures
        enc_pairing_input(s).len() == 4 + 192 * s.len(),
        spec_u32_from_le_bytes(enc_pairing_input(s).take(4)) == s.len(),
        forall|k: int|
            0 <= k < 2 ==> le_value(
                #[trigger] enc_pairing_input(s).subrange(4 + 192 * i + 32 * k, 36 + 192 * i + 32 * k),
            ) == s[i].0[k].value(),
        forall|k: int|
            0 <= k < 4 ==> le_value(
                #[trigger] enc_pairing_input(s).subrange(68 + 192 * i + 32 * k, 100 + 192 * i + 32 * k),
            ) == s[i].1[k].value(),
{
    let f = g1_g2_enc();
    assert forall|x: (G1, G2)| #[trigger] f(x).len() == 192 by {
        lemma_u256_roundtrip(x.0[0]);
        lemma_u256_roundtrip(x.0[1]);
        lemma_u256_roundtrip(x.1[0]);
        lemma_u256_roundtrip(x.1[1]);
        lemma_u256_roundtrip(x.1[2]);
        lemma_u256_roundtrip(x.1[3]);
    }
    lemma_concat_len(s, f, 192);
    lemma_concat_item(s, f, 192, i);
    lemma_auto_spec_u32_to_from_le_bytes();
    let e = enc_pairing_input(s);
    let hdr = spec_u32_to_le_bytes(s.len() as u32);
    let body = concat_map(s, f);
    assert(e == hdr + body);
    assert(e.take(4) =~= hdr);
    let item = f(s[i]);
    assert(item == enc_g1(s[i].0) + enc_g2(s[i].1));
    lemma_g1_layout(s[i].0);
    lemma_g2_layout(s[i].1);
    lemma_g1_roundtrip(s[i].0);
    lemma_g2_roundtrip(s[i].1);
    let o = 4 + 192 * i;
    assert(body.subrange(192 * i, 192 * i + 192) == item);
    assert forall|k: int| 0 <= k < 2 implies le_value(
        #[trigger] e.subrange(4 + 192 * i + 32 * k, 36 + 192 * i + 32 * k),
    ) == s[i].0[k].value() by {
        assert(e.subrange(o + 32 * k, o + 32 * k + 32) =~= item.subrange(32 * k, 32 * k + 32));
        assert(item.subrange(32 * k, 32 * k + 32) =~= enc_g1(s[i].0).subrange(32 * k, 32 * k + 32));
        if k == 0 {
        } else {
        }
    }
    assert forall|k: int| 0 <= k < 4 implies le_value(
        #[trigger] e.subrange(68 + 192 * i + 32 * k, 100 + 192 * i + 32 * k),
    ) == s[i].1[k].value() by {
        assert(e.subrange(o + 64 + 32 * k, o + 96 + 32 * k) =~= item.subrange(
            64 + 32 * k,
            96 + 32 * k,
        ));
        assert(item.subrange(64 + 32 * k, 96 + 32 * k) =~= enc_g2(s[i].1).subrange(
            32 * k,
            32 + 32 * k,
        ));
        if k == 0 {
        } else if k == 1 {
        } else if k == 2 {
        } else {
        }
    }
}

} // verus!
