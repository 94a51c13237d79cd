//! The byte format of the verifier's values: integers and coordinates little-endian,
//! fixed arrays back to back, lists behind a four-byte little-endian count.
use vstd::prelude::*;
use vstd::bytes::*;
use crate::types::{U256, G1, G2, VKModel, Proof};

verus! {

broadcast use vstd::array::group_array_axioms;

/// The 32 bytes of a 256-bit integer, least significant first.
pub open spec fn enc_u256(u: U256) -> Seq<u8> {
    spec_u64_to_le_bytes(u.0[0]) + spec_u64_to_le_bytes(u.0[1]) + spec_u64_to_le_bytes(u.0[2])
        + spec_u64_to_le_bytes(u.0[3])
}

/// The integer that 32 bytes stand for.
pub open spec fn dec_u256(b: Seq<u8>) -> U256 {
    U256(
        [
            spec_u64_from_le_bytes(b.subrange(0, 8)),
            spec_u64_from_le_bytes(b.subrange(8, 16)),
            spec_u64_from_le_bytes(b.subrange(16, 24)),
            spec_u64_from_le_bytes(b.subrange(24, 32)),
        ],
    )
}

/// Encoding a 256-bit integer and decoding it gives it back, and the encoding has 32 bytes.
pub proof fn lemma_u256_roundtrip(u: U256)
    ensures
        enc_u256(u).len() == 32,
        dec_u256(enc_u256(u)) == u,
{
    lemma_auto_spec_u64_to_from_le_bytes();
    let b = enc_u256(u);
    assert(b.subrange(0, 8) =~= spec_u64_to_le_bytes(u.0[0]));
    assert(b.subrange(8, 16) =~= spec_u64_to_le_bytes(u.0[1]));
    assert(b.subrange(16, 24) =~= spec_u64_to_le_bytes(u.0[2]));
    assert(b.subrange(24, 32) =~= spec_u64_to_le_bytes(u.0[3]));
    assert(dec_u256(b).0 =~= u.0);
}

/// Decoding 32 bytes and encoding the result gives the bytes back.
pub proof fn lemma_u256_bytes_roundtrip(b: Seq<u8>)
    requires
        b.len() == 32,
    ensures
        enc_u256(dec_u256(b)) == b,
{
    lemma_auto_spec_u64_to_from_le_bytes();
    let u = dec_u256(b);
    assert(spec_u64_to_le_bytes(spec_u64_from_le_bytes(b.subrange(0, 8))) == b.subrange(0, 8));
    assert(spec_u64_to_le_bytes(spec_u64_from_le_bytes(b.subrange(8, 16))) == b.subrange(8, 16));
    assert(spec_u64_to_le_bytes(spec_u64_from_le_bytes(b.subrange(16, 24))) == b.subrange(16, 24));
    assert(spec_u64_to_le_bytes(spec_u64_from_le_bytes(b.subrange(24, 32))) == b.subrange(24, 32));
    assert(enc_u256(u) =~= b);
}


/// The 64 bytes of a G1 point: x then y.
pub open spec fn enc_g1(p: G1) -> Seq<u8> {
    enc_u256(p[0]) + enc_u256(p[1])
}

/// The G1 point that 64 bytes stand for.
pub open spec fn dec_g1(b: Seq<u8>) -> G1 {
    [dec_u256(b.subrange(0, 32)), dec_u256(b.subrange(32, 64))]
}

/// The 128 bytes of a G2 point: its four coordinates in order.
pub open spec fn enc_g2(q: G2) -> Seq<u8> {
    enc_u256(q[0]) + enc_u256(q[1]) + enc_u256(q[2]) + enc_u256(q[3])
}

/// The G2 point that 128 bytes stand for.
pub open spec fn dec_g2(b: Seq<u8>) -> G2 {
    [
        dec_u256(b.subrange(0, 32)),
        dec_u256(b.subrange(32, 64)),
        dec_u256(b.subrange(64, 96)),
        dec_u256(b.subrange(96, 128)),
    ]
}

/// Encoding a G1 point and decoding it gives it back, and the encoding has 64 bytes.
pub proof fn lemma_g1_roundtrip(p: G1)
    ensures
        enc_g1(p).len() == 64,
        dec_g1(enc_g1(p)) == p,
{
    lemma_u256_roundtrip(p[0]);
    lemma_u256_roundtrip(p[1]);
    let b = enc_g1(p);
    assert(b.subrange(0, 32) =~= enc_u256(p[0]));
    assert(b.subrange(32, 64) =~= enc_u256(p[1]));
    assert(dec_g1(b) =~= p);
}

/// Decoding 64 bytes as a G1 point and encoding it gives the bytes back.
pub proof fn lemma_g1_bytes_roundtrip(b: Seq<u8>)
    requires
        b.len() == 64,
    ensures
        enc_g1(dec_g1(b)) == b,
{
    lemma_u256_bytes_roundtrip(b.subrange(0, 32));
    lemma_u256_bytes_roundtrip(b.subrange(32, 64));
    assert(enc_g1(dec_g1(b)) =~= b);
}

/// Encoding a G2 point and decoding it gives it back, and the encoding has 128 bytes.
pub proof fn lemma_g2_roundtrip(q: G2)
    ensures
        enc_g2(q).len() == 128,
        dec_g2(enc_g2(q)) == q,
{
    lemma_u256_roundtrip(q[0]);
    lemma_u256_roundtrip(q[1]);
    lemma_u256_roundtrip(q[2]);
    lemma_u256_roundtrip(q[3]);
    let b = enc_g2(q);
    assert(b.subrange(0, 32) =~= enc_u256(q[0]));
    assert(b.subrange(32, 64) =~= enc_u256(q[1]));
    assert(b.subrange(64, 96) =~= enc_u256(q[2]));
    assert(b.subrange(96, 128) =~= enc_u256(q[3]));
    assert(dec_g2(b) =~= q);
}

/// Decoding 128 bytes as a G2 point and encoding it gives the bytes back.
pub proof fn lemma_g2_bytes_roundtrip(b: Seq<u8>)
    requires
        b.len() == 128,
    ensures
        enc_g2(dec_g2(b)) == b,
{
    lemma_u256_bytes_roundtrip(b.subrange(0, 32));
    lemma_u256_bytes_roundtrip(b.subrange(32, 64));
    lemma_u256_bytes_roundtrip(b.subrange(64, 96));
    lemma_u256_bytes_roundtrip(b.subrange(96, 128));
    assert(enc_g2(dec_g2(b)) =~= b);
}


/// Items encoded one after another, each by `f`.
pub open spec fn concat_map<T>(s: Seq<T>, f: spec_fn(T) -> Seq<u8>) -> Seq<u8>
    decreases s.len(),
{
    if s.len() == 0 {
        Seq::empty()
    } else {
        f(s[0]) + concat_map(s.skip(1), f)
    }
}

/// Exactly `n` items of `w` bytes each decoded by `g` from the whole of `b`;
/// `None` where an item is refused or the bytes are too few or too many.
pub open spec fn dec_chunks<T>(b: Seq<u8>, n: nat, w: nat, g: spec_fn(Seq<u8>) -> Option<T>) -> Option<
    Seq<T>,
>
    decreases n,
{
    if n == 0 {
        if b.len() == 0 {
            Some(Seq::empty())
        } else {
            None
        }
    } else if b.len() < w {
        None
    } else {
        match g(b.take(w as int)) {
            Some(x) => match dec_chunks(b.skip(w as int), (n - 1) as nat, w, g) {
                Some(rest) => Some(seq![x] + rest),
                None => None,
            },
            None => None,
        }
    }
}

/// A list: its length as four little-endian bytes, then its items.
pub open spec fn enc_list<T>(s: Seq<T>, f: spec_fn(T) -> Seq<u8>) -> Seq<u8> {
    spec_u32_to_le_bytes(s.len() as u32) + concat_map(s, f)
}

/// The list of `w`-byte items that the whole of `b` stands for.
pub open spec fn dec_list<T>(b: Seq<u8>, w: nat, g: spec_fn(Seq<u8>) -> Option<T>) -> Option<Seq<T>> {
    if b.len() < 4 {
        None
    } else {
        dec_chunks(b.skip(4), spec_u32_from_le_bytes(b.take(4)) as nat, w, g)
    }
}

/// Encoding one more item appends its bytes.
pub proof fn lemma_concat_push<T>(s: Seq<T>, x: T, f: spec_fn(T) -> Seq<u8>)
    ensures
        concat_map(s.push(x), f) == concat_map(s, f) + f(x),
    decreases s.len(),
{
    if s.len() == 0 {
        assert(s.push(x).skip(1) =~= Seq::<T>::empty());
        assert(concat_map(s.push(x).skip(1), f) =~= Seq::<u8>::empty());
        assert(concat_map(s.push(x), f) =~= f(x));
    } else {
        lemma_concat_push(s.skip(1), x, f);
        assert(s.push(x).skip(1) =~= s.skip(1).push(x));
        assert(s.push(x)[0] == s[0]);
        assert(concat_map(s.push(x), f) =~= concat_map(s, f) + f(x));
    }
}

/// Items of width `w` have `n * w` bytes between them.
pub proof fn lemma_concat_len<T>(s: Seq<T>, f: spec_fn(T) -> Seq<u8>, w: nat)
    requires
        forall|x: T| #[trigger] f(x).len() == w,
    ensures
        concat_map(s, f).len() == s.len() * w,
    decreases s.len(),
{
    if s.len() > 0 {
        lemma_concat_len(s.skip(1), f, w);
        let n = s.len();
        assert(w + (n - 1) * w == n * w) by (nonlinear_arith);
    }
}

/// Decoding succeeds only on exactly `n * w` bytes.
pub proof fn lemma_chunks_len<T>(b: Seq<u8>, n: nat, w: nat, g: spec_fn(Seq<u8>) -> Option<T>)
    requires
        dec_chunks(b, n, w, g) is Some,
    ensures
        b.len() == n * w,
        dec_chunks(b, n, w, g).unwrap().len() == n,
    decreases n,
{
    if n > 0 {
        assert(b.len() >= w);
        lemma_chunks_len(b.skip(w as int), (n - 1) as nat, w, g);
        assert(w + (n - 1) * w == n * w) by (nonlinear_arith);
    } else {
        assert(n * w == 0) by (nonlinear_arith)
            requires
                n == 0,
        ;
    }
}

/// Decoding the encodings of items gives the items back, where each item does.
pub proof fn lemma_chunks_of_concat<T>(
    s: Seq<T>,
    f: spec_fn(T) -> Seq<u8>,
    g: spec_fn(Seq<u8>) -> Option<T>,
    w: nat,
)
    requires
        forall|x: T| #[trigger] f(x).len() == w,
        forall|x: T| #[trigger] g(f(x)) == Some(x),
    ensures
        dec_chunks(concat_map(s, f), s.len(), w, g) == Some(s),
    decreases s.len(),
{
    if s.len() == 0 {
    } else {
        lemma_chunks_of_concat(s.skip(1), f, g, w);
        let b = concat_map(s, f);
        assert(f(s[0]).len() == w);
        assert(b.take(w as int) =~= f(s[0]));
        assert(b.skip(w as int) =~= concat_map(s.skip(1), f));
        assert(g(f(s[0])) == Some(s[0]));
        assert(seq![s[0]] + s.skip(1) =~= s);
    }
}

/// What decodes to items is the encoding of those items, where each item's decoding is
/// undone by its encoding.
pub proof fn lemma_concat_of_chunks<T>(
    b: Seq<u8>,
    n: nat,
    f: spec_fn(T) -> Seq<u8>,
    g: spec_fn(Seq<u8>) -> Option<T>,
    w: nat,
)
    requires
        dec_chunks(b, n, w, g) is Some,
        forall|c: Seq<u8>| c.len() == w && #[trigger] g(c) is Some ==> f(g(c).unwrap()) == c,
    ensures
        concat_map(dec_chunks(b, n, w, g).unwrap(), f) == b,
    decreases n,
{
    if n == 0 {
        assert(b =~= Seq::<u8>::empty());
    } else {
        let rest_b = b.skip(w as int);
        lemma_concat_of_chunks(rest_b, (n - 1) as nat, f, g, w);
        let x = g(b.take(w as int)).unwrap();
        let rest = dec_chunks(rest_b, (n - 1) as nat, w, g).unwrap();
        let s = dec_chunks(b, n, w, g).unwrap();
        assert(s == seq![x] + rest);
        assert(s[0] == x);
        assert(s.skip(1) =~= rest);
        assert(b.take(w as int).len() == w);
        assert(f(x) == b.take(w as int));
        assert(concat_map(s, f) =~= b);
    }
}

/// Decoding the encoding of a list gives the list back, where each item does and the list
/// is short enough that its length fits in four bytes.
pub proof fn lemma_list_roundtrip<T>(
    s: Seq<T>,
    f: spec_fn(T) -> Seq<u8>,
    g: spec_fn(Seq<u8>) -> Option<T>,
    w: nat,
)
    requires
        s.len() <= u32::MAX,
        forall|x: T| #[trigger] f(x).len() == w,
        forall|x: T| #[trigger] g(f(x)) == Some(x),
    ensures
        dec_list(enc_list(s, f), w, g) == Some(s),
{
    lemma_auto_spec_u32_to_from_le_bytes();
    let b = enc_list(s, f);
    let head = spec_u32_to_le_bytes(s.len() as u32);
    assert(b.take(4) =~= head);
    assert(b.skip(4) =~= concat_map(s, f));
    lemma_chunks_of_concat(s, f, g, w);
}

/// What decodes to a list is the encoding of that list.
pub proof fn lemma_list_bytes_roundtrip<T>(
    b: Seq<u8>,
    f: spec_fn(T) -> Seq<u8>,
    g: spec_fn(Seq<u8>) -> Option<T>,
    w: nat,
)
    requires
        dec_list(b, w, g) is Some,
        forall|c: Seq<u8>| c.len() == w && #[trigger] g(c) is Some ==> f(g(c).unwrap()) == c,
    ensures
        dec_list(b, w, g).unwrap().len() <= u32::MAX,
        enc_list(dec_list(b, w, g).unwrap(), f) == b,
{
    lemma_auto_spec_u32_to_from_le_bytes();
    let n = spec_u32_from_le_bytes(b.take(4));
    lemma_chunks_len(b.skip(4), n as nat, w, g);
    lemma_concat_of_chunks(b.skip(4), n as nat, f, g, w);
    let s = dec_list(b, w, g).unwrap();
    assert(s.len() == n);
    assert(spec_u32_to_le_bytes(spec_u32_from_le_bytes(b.take(4))) == b.take(4));
    assert(enc_list(s, f) =~= b);
}


/// How a G1 point is written as a list item.
pub open spec fn g1_item_enc() -> spec_fn(G1) -> Seq<u8> {
    |p: G1| enc_g1(p)
}

/// How a 64-byte list item is read as a G1 point.
pub open spec fn g1_item_dec() -> spec_fn(Seq<u8>) -> Option<G1> {
    |c: Seq<u8>| Some(dec_g1(c))
}

/// How an integer is written as a list item.
pub open spec fn u256_item_enc() -> spec_fn(U256) -> Seq<u8> {
    |u: U256| enc_u256(u)
}

/// How a 32-byte list item is read as an integer.
pub open spec fn u256_item_dec() -> spec_fn(Seq<u8>) -> Option<U256> {
    |c: Seq<u8>| Some(dec_u256(c))
}

/// How a signed point is written: one byte, 1 for `true` and 0 for `false`, then the point.
pub open spec fn signed_g1_enc() -> spec_fn((bool, G1)) -> Seq<u8> {
    |it: (bool, G1)|
        seq![
            if it.0 {
                1u8
            } else {
                0u8
            },
        ] + enc_g1(it.1)
}

/// How a 65-byte item is read as a signed point; a first byte other than 0 or 1 is refused.
pub open spec fn signed_g1_dec() -> spec_fn(Seq<u8>) -> Option<(bool, G1)> {
    |c: Seq<u8>|
        if c[0] == 0u8 {
            Some((false, dec_g1(c.skip(1))))
        } else if c[0] == 1u8 {
            Some((true, dec_g1(c.skip(1))))
        } else {
            None
        }
}

/// How a point and its scalar are written: the point, then the scalar.
pub open spec fn g1_scalar_enc() -> spec_fn((G1, U256)) -> Seq<u8> {
    |it: (G1, U256)| enc_g1(it.0) + enc_u256(it.1)
}

/// How a 96-byte item is read as a point and its scalar.
pub open spec fn g1_scalar_dec() -> spec_fn(Seq<u8>) -> Option<(G1, U256)> {
    |c: Seq<u8>| Some((dec_g1(c.take(64)), dec_u256(c.skip(64))))
}

/// How a pair of points is written: the G1 point, then the G2 point.
pub open spec fn g1_g2_enc() -> spec_fn((G1, G2)) -> Seq<u8> {
    |it: (G1, G2)| enc_g1(it.0) + enc_g2(it.1)
}

/// How a 192-byte item is read as a G1 point and a G2 point.
pub open spec fn g1_g2_dec() -> spec_fn(Seq<u8>) -> Option<(G1, G2)> {
    |c: Seq<u8>| Some((dec_g1(c.take(64)), dec_g2(c.skip(64))))
}

/// The bytes of a verification key: alpha, beta, gamma, delta, then the list `ic`.
pub open spec fn enc_vk(v: VKModel) -> Seq<u8> {
    enc_g1(v.alpha) + enc_g2(v.beta) + enc_g2(v.gamma) + enc_g2(v.delta) + enc_list(v.ic, g1_item_enc())
}

/// The verification key that the whole of `b` stands for.
pub open spec fn dec_vk(b: Seq<u8>) -> Option<VKModel> {
    if b.len() < 448 {
        None
    } else {
        match dec_list(b.skip(448), 64, g1_item_dec()) {
            Some(ic) => Some(
                VKModel {
                    alpha: dec_g1(b.subrange(0, 64)),
                    beta: dec_g2(b.subrange(64, 192)),
                    gamma: dec_g2(b.subrange(192, 320)),
                    delta: dec_g2(b.subrange(320, 448)),
                    ic,
                },
            ),
            None => None,
        }
    }
}

/// The 256 bytes of a proof: a, b, then c.
pub open spec fn enc_proof(p: Proof) -> Seq<u8> {
    enc_g1(p.a) + enc_g2(p.b) + enc_g1(p.c)
}

/// The proof that the whole of `b` stands for.
pub open spec fn dec_proof(b: Seq<u8>) -> Option<Proof> {
    if b.len() == 256 {
        Some(
            Proof {
                a: dec_g1(b.subrange(0, 64)),
                b: dec_g2(b.subrange(64, 192)),
                c: dec_g1(b.subrange(192, 256)),
            },
        )
    } else {
        None
    }
}

/// The bytes of a list of public inputs.
pub open spec fn enc_inputs(s: Seq<U256>) -> Seq<u8> {
    enc_list(s, u256_item_enc())
}

/// The public inputs that the whole of `b` stands for.
pub open spec fn dec_inputs(b: Seq<u8>) -> Option<Seq<U256>> {
    dec_list(b, 32, u256_item_dec())
}

/// The bytes of a list of signed points, the input of a G1 sum.
pub open spec fn enc_signed_points(s: Seq<(bool, G1)>) -> Seq<u8> {
    enc_list(s, signed_g1_enc())
}

/// The signed points that the whole of `b` stands for.
pub open spec fn dec_signed_points(b: Seq<u8>) -> Option<Seq<(bool, G1)>> {
    dec_list(b, 65, signed_g1_dec())
}

/// The bytes of a list of points with scalars, the input of a multi-exponentiation.
pub open spec fn enc_multiexp_input(s: Seq<(G1, U256)>) -> Seq<u8> {
    enc_list(s, g1_scalar_enc())
}

/// The bytes of a list of point pairs, the input of a pairing check.
pub open spec fn enc_pairing_input(s: Seq<(G1, G2)>) -> Seq<u8> {
    enc_list(s, g1_g2_enc())
}

proof fn lemma_g1_items()
    ensures
        forall|x: G1| #[trigger] g1_item_enc()(x).len() == 64,
        forall|x: G1| #[trigger] g1_item_dec()(g1_item_enc()(x)) == Some(x),
        forall|c: Seq<u8>|
            c.len() == 64 && #[trigger] g1_item_dec()(c) is Some ==> g1_item_enc()(
                g1_item_dec()(c).unwrap(),
            ) == c,
{
    assert forall|x: G1| #[trigger] g1_item_enc()(x).len() == 64 by {
        lemma_g1_roundtrip(x);
    }
    assert forall|x: G1| #[trigger] g1_item_dec()(g1_item_enc()(x)) == Some(x) by {
        lemma_g1_roundtrip(x);
    }
    assert forall|c: Seq<u8>|
        c.len() == 64 && #[trigger] g1_item_dec()(c) is Some implies g1_item_enc()(
            g1_item_dec()(c).unwrap(),
        ) == c by {
        lemma_g1_bytes_roundtrip(c);
    }
}

proof fn lemma_u256_items()
    ensures
        forall|x: U256| #[trigger] u256_item_enc()(x).len() == 32,
        forall|x: U256| #[trigger] u256_item_dec()(u256_item_enc()(x)) == Some(x),
        forall|c: Seq<u8>|
            c.len() == 32 && #[trigger] u256_item_dec()(c) is Some ==> u256_item_enc()(
                u256_item_dec()(c).unwrap(),
            ) == c,
{
    assert forall|x: U256| #[trigger] u256_item_enc()(x).len() == 32 by {
        lemma_u256_roundtrip(x);
    }
    assert forall|x: U256| #[trigger] u256_item_dec()(u256_item_enc()(x)) == Some(x) by {
        lemma_u256_roundtrip(x);
    }
    assert forall|c: Seq<u8>|
        c.len() == 32 && #[trigger] u256_item_dec()(c) is Some implies u256_item_enc()(
            u256_item_dec()(c).unwrap(),
        ) == c by {
        lemma_u256_bytes_roundtrip(c);
    }
}

proof fn lemma_signed_g1_items()
    ensures
        forall|x: (bool, G1)| #[trigger] signed_g1_enc()(x).len() == 65,
        forall|x: (bool, G1)| #[trigger] signed_g1_dec()(signed_g1_enc()(x)) == Some(x),
        forall|c: Seq<u8>|
            c.len() == 65 && #[trigger] signed_g1_dec()(c) is Some ==> signed_g1_enc()(
                signed_g1_dec()(c).unwrap(),
            ) == c,
{
    assert forall|x: (bool, G1)| #[trigger] signed_g1_enc()(x).len() == 65 by {
        lemma_g1_roundtrip(x.1);
    }
    assert forall|x: (bool, G1)| #[trigger] signed_g1_dec()(signed_g1_enc()(x)) == Some(x) by {
        lemma_g1_roundtrip(x.1);
        let b = signed_g1_enc()(x);
        assert(b.skip(1) =~= enc_g1(x.1));
    }
    assert forall|c: Seq<u8>|
        c.len() == 65 && #[trigger] signed_g1_dec()(c) is Some implies signed_g1_enc()(
            signed_g1_dec()(c).unwrap(),
        ) == c by {
        lemma_g1_bytes_roundtrip(c.skip(1));
        assert(signed_g1_enc()(signed_g1_dec()(c).unwrap()) =~= c);
    }
}

/// Decoding the bytes of a verification key gives the key back, for a key whose `ic` list
/// is short enough for its length to fit in four bytes.
pub proof fn lemma_vk_roundtrip(v: VKModel)
    requires
        v.ic.len() <= u32::MAX,
    ensures
        dec_vk(enc_vk(v)) == Some(v),
{
    lemma_g1_items();
    lemma_g1_roundtrip(v.alpha);
    lemma_g2_roundtrip(v.beta);
    lemma_g2_roundtrip(v.gamma);
    lemma_g2_roundtrip(v.delta);
    lemma_list_roundtrip(v.ic, g1_item_enc(), g1_item_dec(), 64);
    let b = enc_vk(v);
    assert(b.subrange(0, 64) =~= enc_g1(v.alpha));
    assert(b.subrange(64, 192) =~= enc_g2(v.beta));
    assert(b.subrange(192, 320) =~= enc_g2(v.gamma));
    assert(b.subrange(320, 448) =~= enc_g2(v.delta));
    assert(b.skip(448) =~= enc_list(v.ic, g1_item_enc()));
    let w = dec_vk(b).unwrap();
    assert(w.ic =~= v.ic);
}

/// Bytes that decode to a verification key are that key's encoding.
pub proof fn lemma_vk_bytes_roundtrip(b: Seq<u8>)
    requires
        dec_vk(b) is Some,
    ensures
        dec_vk(b).unwrap().ic.len() <= u32::MAX,
        enc_vk(dec_vk(b).unwrap()) == b,
{
    lemma_g1_items();
    lemma_g1_bytes_roundtrip(b.subrange(0, 64));
    lemma_g2_bytes_roundtrip(b.subrange(64, 192));
    lemma_g2_bytes_roundtrip(b.subrange(192, 320));
    lemma_g2_bytes_roundtrip(b.subrange(320, 448));
    lemma_list_bytes_roundtrip(b.skip(448), g1_item_enc(), g1_item_dec(), 64);
    assert(enc_vk(dec_vk(b).unwrap()) =~= b);
}

/// Decoding the bytes of a proof gives the proof back.
pub proof fn lemma_proof_roundtrip(p: Proof)
    ensures
        enc_proof(p).len() == 256,
        dec_proof(enc_proof(p)) == Some(p),
{
    lemma_g1_roundtrip(p.a);
    lemma_g2_roundtrip(p.b);
    lemma_g1_roundtrip(p.c);
    let b = enc_proof(p);
    assert(b.subrange(0, 64) =~= enc_g1(p.a));
    assert(b.subrange(64, 192) =~= enc_g2(p.b));
    assert(b.subrange(192, 256) =~= enc_g1(p.c));
}

/// Bytes that decode to a proof are that proof's encoding.
pub proof fn lemma_proof_bytes_roundtrip(b: Seq<u8>)
    requires
        dec_proof(b) is Some,
    ensures
        enc_proof(dec_proof(b).unwrap()) == b,
{
    lemma_g1_bytes_roundtrip(b.subrange(0, 64));
    lemma_g2_bytes_roundtrip(b.subrange(64, 192));
    lemma_g1_bytes_roundtrip(b.subrange(192, 256));
    assert(enc_proof(dec_proof(b).unwrap()) =~= b);
}

/// Decoding the bytes of a list of public inputs gives the list back.
pub proof fn lemma_inputs_roundtrip(s: Seq<U256>)
    requires
        s.len() <= u32::MAX,
    ensures
        dec_inputs(enc_inputs(s)) == Some(s),
{
    lemma_u256_items();
    lemma_list_roundtrip(s, u256_item_enc(), u256_item_dec(), 32);
}

/// Bytes that decode to a list of public inputs are that list's encoding.
pub proof fn lemma_inputs_bytes_roundtrip(b: Seq<u8>)
    requires
        dec_inputs(b) is Some,
    ensures
        dec_inputs(b).unwrap().len() <= u32::MAX,
        enc_inputs(dec_inputs(b).unwrap()) == b,
{
    lemma_u256_items();
    lemma_list_bytes_roundtrip(b, u256_item_enc(), u256_item_dec(), 32);
}

/// Decoding the bytes of a list of signed points gives the list back.
pub proof fn lemma_signed_points_roundtrip(s: Seq<(bool, G1)>)
    requires
        s.len() <= u32::MAX,
    ensures
        dec_signed_points(enc_signed_points(s)) == Some(s),
{
    lemma_signed_g1_items();
    lemma_list_roundtrip(s, signed_g1_enc(), signed_g1_dec(), 65);
}

/// Bytes that decode to a list of signed points are that list's encoding.
pub proof fn lemma_signed_points_bytes_roundtrip(b: Seq<u8>)
    requires
        dec_signed_points(b) is Some,
    ensures
        dec_signed_points(b).unwrap().len() <= u32::MAX,
        enc_signed_points(dec_signed_points(b).unwrap()) == b,
{
    lemma_signed_g1_items();
    lemma_list_bytes_roundtrip(b, signed_g1_enc(), signed_g1_dec(), 65);
}


proof fn lemma_g1_scalar_items()
    ensures
        forall|x: (G1, U256)| #[trigger] g1_scalar_enc()(x).len() == 96,
        forall|x: (G1, U256)| #[trigger] g1_scalar_dec()(g1_scalar_enc()(x)) == Some(x),
{
    assert forall|x: (G1, U256)| #[trigger] g1_scalar_enc()(x).len() == 96 by {
        lemma_g1_roundtrip(x.0);
        lemma_u256_roundtrip(x.1);
    }
    assert forall|x: (G1, U256)| #[trigger] g1_scalar_dec()(g1_scalar_enc()(x)) == Some(x) by {
        lemma_g1_roundtrip(x.0);
        lemma_u256_roundtrip(x.1);
        let b = g1_scalar_enc()(x);
        assert(b.take(64) =~= enc_g1(x.0));
        assert(b.skip(64) =~= enc_u256(x.1));
    }
}

/// Decoding the bytes of a list of points with scalars gives the list back.
pub proof fn lemma_multiexp_input_roundtrip(s: Seq<(G1, U256)>)
    requires
        s.len() <= u32::MAX,
    ensures
        dec_list(enc_multiexp_input(s), 96, g1_scalar_dec()) == Some(s),
{
    lemma_g1_scalar_items();
    lemma_list_roundtrip(s, g1_scalar_enc(), g1_scalar_dec(), 96);
}


proof fn lemma_g1_g2_items()
    ensures
        forall|x: (G1, G2)| #[trigger] g1_g2_enc()(x).len() == 192,
        forall|x: (G1, G2)| #[trigger] g1_g2_dec()(g1_g2_enc()(x)) == Some(x),
{
    assert forall|x: (G1, G2)| #[trigger] g1_g2_enc()(x).len() == 192 by {
        lemma_g1_roundtrip(x.0);
        lemma_g2_roundtrip(x.1);
    }
    assert forall|x: (G1, G2)| #[trigger] g1_g2_dec()(g1_g2_enc()(x)) == Some(x) by {
        lemma_g1_roundtrip(x.0);
        lemma_g2_roundtrip(x.1);
        let b = g1_g2_enc()(x);
        assert(b.take(64) =~= enc_g1(x.0));
        assert(b.skip(64) =~= enc_g2(x.1));
    }
}

/// Decoding the bytes of a list of point pairs gives the list back.
pub proof fn lemma_pairing_input_roundtrip(s: Seq<(G1, G2)>)
    requires
        s.len() <= u32::MAX,
    ensures
        dec_list(enc_pairing_input(s), 192, g1_g2_dec()) == Some(s),
{
    lemma_g1_g2_items();
    lemma_list_roundtrip(s, g1_g2_enc(), g1_g2_dec(), 192);
}

} // verus!
