//! Round-trip and layout lemmas: decoding an encoded block yields exactly
//! the values that were encoded, member for member, even when arbitrary
//! bytes follow the block.

use vstd::prelude::*;

use crate::decode::{dec_fields, dec_items, dec_one, dec_params, dec_tail};
use crate::encode::{
    enc_heads, enc_items_block, enc_items_heads, enc_items_tails, enc_params, enc_tails, enc_value,
};
use crate::types::{heads_len, head_size, is_dynamic, lemma_head_size_min, lemma_static_size_min, static_size, ty_valid, tys_valid, AbiType};
use crate::value::{fields_match, items_match, val_matches, ValModel};
use crate::words::{
    lemma_be_bytes_len, lemma_be_bytes_val, pow256, u256_word, uint_val, zeroes,
};

verus! {

/// If a stretch of `frame` holds `a + b`, its two halves hold `a` and `b`.
pub proof fn lemma_subrange_split(frame: Seq<u8>, p: int, a: Seq<u8>, b: Seq<u8>)
    requires
        0 <= p,
        p + a.len() + b.len() <= frame.len(),
        frame.subrange(p, p + a.len() + b.len()) == a + b,
    ensures
        frame.subrange(p, p + a.len()) == a,
        frame.subrange(p + a.len(), p + a.len() + b.len()) == b,
{
    let whole = frame.subrange(p, p + a.len() + b.len());
    assert forall|i: int| 0 <= i < a.len() implies frame.subrange(p, p + a.len())[i] == a[i] by {
        assert(whole[i] == (a + b)[i]);
    }
    assert(frame.subrange(p, p + a.len()) =~= a);
    assert forall|i: int| 0 <= i < b.len() implies frame.subrange(
        p + a.len(),
        p + a.len() + b.len(),
    )[i] == b[i] by {
        assert(whole[a.len() + i] == (a + b)[a.len() + i]);
    }
    assert(frame.subrange(p + a.len(), p + a.len() + b.len()) =~= b);
}

/// Validity and matching pass from a member list to its tail.
pub proof fn lemma_match_drop(ts: Seq<AbiType>, vs: Seq<ValModel>)
    requires
        ts.len() > 0,
        tys_valid(ts),
        fields_match(vs, ts),
    ensures
        tys_valid(ts.drop_first()),
        fields_match(vs.drop_first(), ts.drop_first()),
{
    let ts1 = ts.drop_first();
    let vs1 = vs.drop_first();
    assert forall|i: int| 0 <= i < ts1.len() implies ty_valid(#[trigger] ts1[i]) && val_matches(
        vs1[i],
        ts1[i],
    ) by {
        assert(ty_valid(ts[i + 1]));
        assert(val_matches(vs[i + 1], ts[i + 1]));
    }
}

/// Element matching passes from a homogeneous list to its tail.
pub proof fn lemma_items_match_drop(e: AbiType, vs: Seq<ValModel>)
    requires
        vs.len() > 0,
        items_match(vs, e),
    ensures
        items_match(vs.drop_first(), e),
{
    let vs1 = vs.drop_first();
    assert forall|i: int| 0 <= i < vs1.len() implies val_matches(#[trigger] vs1[i], e) by {
        assert(val_matches(vs[i + 1], e));
    }
}

/// A static value encodes to exactly its inline size.
pub proof fn lemma_enc_value_len_static(t: AbiType, v: ValModel)
    requires
        ty_valid(t),
        val_matches(v, t),
        !is_dynamic(t),
    ensures
        enc_value(t, v).len() == static_size(t),
    decreases t, 0nat, 0nat,
{
    match t {
        AbiType::FixedArray(e, n) => {
            if let ValModel::FixedArray(vs) = v {
                lemma_enc_items_heads_len(*e, vs, vs.len() * head_size(*e));
                lemma_enc_items_tails_static(*e, vs);
                assert(head_size(*e) == static_size(*e));
            }
        },
        AbiType::Tuple(ts) => {
            if let ValModel::Tuple(vs) = v {
                lemma_enc_heads_len(ts@, vs, heads_len(ts@));
                lemma_enc_tails_static(ts@, vs);
            }
        },
        _ => {},
    }
}

/// The head region of a block is exactly `heads_len` bytes long.
pub proof fn lemma_enc_heads_len(ts: Seq<AbiType>, vs: Seq<ValModel>, tail_pos: nat)
    requires
        tys_valid(ts),
        fields_match(vs, ts),
    ensures
        enc_heads(ts, vs, tail_pos).len() == heads_len(ts),
    decreases ts, 0nat, 1nat,
{
    if ts.len() > 0 {
        if is_dynamic(ts[0]) {
            lemma_be_bytes_len(tail_pos, 32);
        } else {
            lemma_enc_value_len_static(ts[0], vs[0]);
        }
        let next_tail = if is_dynamic(ts[0]) {
            tail_pos + enc_value(ts[0], vs[0]).len()
        } else {
            tail_pos
        };
        lemma_match_drop(ts, vs);
        lemma_enc_heads_len(ts.drop_first(), vs.drop_first(), next_tail);
        let head0 = if is_dynamic(ts[0]) {
            u256_word(tail_pos)
        } else {
            enc_value(ts[0], vs[0])
        };
        assert(head0.len() == head_size(ts[0]));
        assert(enc_heads(ts, vs, tail_pos) == head0 + enc_heads(
            ts.drop_first(),
            vs.drop_first(),
            next_tail,
        ));
        assert(heads_len(ts) == head_size(ts[0]) + heads_len(ts.drop_first()));
    }
}

/// The head region of a homogeneous block is one head slot per element.
pub proof fn lemma_enc_items_heads_len(e: AbiType, vs: Seq<ValModel>, tail_pos: nat)
    requires
        ty_valid(e),
        items_match(vs, e),
    ensures
        enc_items_heads(e, vs, tail_pos).len() == vs.len() * head_size(e),
    decreases e, vs.len(), 1nat,
{
    if vs.len() > 0 {
        if is_dynamic(e) {
            lemma_be_bytes_len(tail_pos, 32);
        } else {
            lemma_enc_value_len_static(e, vs[0]);
        }
        let next_tail = if is_dynamic(e) {
            tail_pos + enc_value(e, vs[0]).len()
        } else {
            tail_pos
        };
        lemma_items_match_drop(e, vs);
        lemma_enc_items_heads_len(e, vs.drop_first(), next_tail);
        assert(vs.len() * head_size(e) == head_size(e) + (vs.len() - 1) * head_size(e))
            by (nonlinear_arith)
            requires
                vs.len() >= 1,
        ;
    }
}

/// A member list without dynamic members has an empty tail region.
pub proof fn lemma_enc_tails_static(ts: Seq<AbiType>, vs: Seq<ValModel>)
    requires
        !crate::types::any_dynamic(ts),
    ensures
        enc_tails(ts, vs) == Seq::<u8>::empty(),
    decreases ts,
{
    if ts.len() > 0 {
        assert(!is_dynamic(ts[0]));
        assert(!crate::types::any_dynamic(ts.drop_first())) by {
            if crate::types::any_dynamic(ts.drop_first()) {
                let i = choose|i: int|
                    0 <= i < ts.drop_first().len() && is_dynamic(#[trigger] ts.drop_first()[i]);
                assert(is_dynamic(ts[i + 1]));
            }
        }
        lemma_enc_tails_static(ts.drop_first(), vs.drop_first());
        assert(Seq::<u8>::empty() + Seq::<u8>::empty() =~= Seq::<u8>::empty());
    }
}

/// A homogeneous block of a static element type has an empty tail region.
pub proof fn lemma_enc_items_tails_static(e: AbiType, vs: Seq<ValModel>)
    requires
        !is_dynamic(e),
    ensures
        enc_items_tails(e, vs) == Seq::<u8>::empty(),
    decreases vs.len(),
{
    if vs.len() > 0 {
        lemma_enc_items_tails_static(e, vs.drop_first());
        assert(Seq::<u8>::empty() + Seq::<u8>::empty() =~= Seq::<u8>::empty());
    }
}

/// Decoding a static member whose inline bytes sit at `pos` recovers it.
pub proof fn rt_one_static(t: AbiType, v: ValModel, frame: Seq<u8>, pos: nat)
    requires
        ty_valid(t),
        val_matches(v, t),
        !is_dynamic(t),
        frame.len() < pow256(32),
        pos + static_size(t) <= frame.len(),
        frame.subrange(pos as int, (pos + static_size(t)) as int) == enc_value(t, v),
    ensures
        dec_one(t, frame, pos) == Some(v),
    decreases t, 0nat, 1nat,
{
    lemma_static_size_min(t);
    match t {
        AbiType::Bool => {
            if let ValModel::Bool(b) = v {
                let x: u8 = if b {
                    1u8
                } else {
                    0u8
                };
                assert(enc_value(t, v)[31] == x);
                assert(frame[pos as int + 31] == frame.subrange(pos as int, (pos + 32) as int)[31]);
            }
        },
        AbiType::Uint(bits) => {
            if let ValModel::Uint(b) = v {
                lemma_subrange_split(frame, pos as int, zeroes((32 - b.len()) as nat), b);
            }
        },
        AbiType::Int(bits) => {
            if let ValModel::Int(b) = v {
                let fill = Seq::new(
                    (32 - b.len()) as nat,
                    |i: int| if b.len() > 0 && b[0] >= 128 {
                        255u8
                    } else {
                        0u8
                    },
                );
                lemma_subrange_split(frame, pos as int, fill, b);
            }
        },
        AbiType::Address => {
            if let ValModel::Address(b) = v {
                lemma_subrange_split(frame, pos as int, zeroes(12), b);
            }
        },
        AbiType::FixedBytes(n) => {
            if let ValModel::FixedBytes(b) = v {
                lemma_subrange_split(frame, pos as int, b, zeroes((32 - b.len()) as nat));
            }
        },
        AbiType::FixedArray(e, n) => {
            if let ValModel::FixedArray(vs) = v {
                let tp = vs.len() * head_size(*e);
                lemma_enc_items_tails_static(*e, vs);
                lemma_enc_items_heads_len(*e, vs, tp);
                assert(enc_value(t, v) =~= enc_items_heads(*e, vs, tp));
                assert(head_size(*e) == static_size(*e));
                assert(n * static_size(*e) == vs.len() * head_size(*e));
                assert(frame.subrange(pos as int, (pos + tp) as int) == enc_items_heads(
                    *e,
                    vs,
                    tp,
                ));
                assert(frame.subrange(tp as int, tp as int) =~= enc_items_tails(*e, vs));
                rt_items(*e, vs, frame, pos, tp);
            }
        },
        AbiType::Tuple(ts) => {
            if let ValModel::Tuple(vs) = v {
                let tp = heads_len(ts@);
                lemma_enc_tails_static(ts@, vs);
                lemma_enc_heads_len(ts@, vs, tp);
                assert(enc_value(t, v) =~= enc_heads(ts@, vs, tp));
                assert(frame.subrange(tp as int, tp as int) =~= enc_tails(ts@, vs));
                rt_fields(ts@, vs, frame, pos, tp);
            }
        },
        _ => {},
    }
}

/// Decoding a dynamic member's tail content recovers it, regardless of
/// what follows the content.
pub proof fn rt_one_dynamic(t: AbiType, v: ValModel, tail: Seq<u8>)
    requires
        ty_valid(t),
        val_matches(v, t),
        is_dynamic(t),
        tail.len() < pow256(32),
        enc_value(t, v).len() <= tail.len(),
        tail.take(enc_value(t, v).len() as int) == enc_value(t, v),
    ensures
        dec_tail(t, tail) == Some(v),
    decreases t, 0nat, 0nat,
{
    let enc0 = enc_value(t, v);
    match t {
        AbiType::Bytes => {
            if let ValModel::Bytes(b) = v {
                rt_blob(b, tail, enc0);
            }
        },
        AbiType::Str => {
            if let ValModel::Str(b) = v {
                rt_blob(b, tail, enc0);
            }
        },
        AbiType::Array(e) => {
            if let ValModel::Array(vs) = v {
                let n = vs.len();
                let body = enc_items_block(*e, vs);
                lemma_be_bytes_len(n, 32);
                assert(enc0 == u256_word(n) + body);
                assert(tail.subrange(0, enc0.len() as int) == enc0) by {
                    assert(tail.take(enc0.len() as int) =~= tail.subrange(0, enc0.len() as int));
                }
                lemma_subrange_split(tail, 0, u256_word(n), body);
                assert(tail.take(32) =~= tail.subrange(0, 32));
                lemma_head_size_min(*e);
                lemma_enc_items_heads_len(*e, vs, n * head_size(*e));
                assert(n <= n * head_size(*e)) by (nonlinear_arith)
                    requires
                        head_size(*e) >= 32,
                ;
                lemma_be_bytes_val(n, 32);
                let frame = tail.skip(32);
                assert(frame.subrange(0, body.len() as int) == body) by {
                    assert forall|i: int| 0 <= i < body.len() implies frame.subrange(
                        0,
                        body.len() as int,
                    )[i] == body[i] by {
                        assert(tail.subrange(32, 32 + body.len() as int)[i] == body[i]);
                    }
                    assert(frame.subrange(0, body.len() as int) =~= body);
                }
                let tp = n * head_size(*e);
                lemma_subrange_split(frame, 0, enc_items_heads(*e, vs, tp), enc_items_tails(*e, vs));
                rt_items(*e, vs, frame, 0, tp);
            }
        },
        AbiType::FixedArray(e, n) => {
            if let ValModel::FixedArray(vs) = v {
                let tp = vs.len() * head_size(*e);
                assert(tail.subrange(0, enc0.len() as int) == enc0) by {
                    assert(tail.take(enc0.len() as int) =~= tail.subrange(0, enc0.len() as int));
                }
                lemma_subrange_split(tail, 0, enc_items_heads(*e, vs, tp), enc_items_tails(*e, vs));
                lemma_enc_items_heads_len(*e, vs, tp);
                rt_items(*e, vs, tail, 0, tp);
            }
        },
        AbiType::Tuple(ts) => {
            if let ValModel::Tuple(vs) = v {
                let tp = heads_len(ts@);
                assert(tail.subrange(0, enc0.len() as int) == enc0) by {
                    assert(tail.take(enc0.len() as int) =~= tail.subrange(0, enc0.len() as int));
                }
                lemma_subrange_split(tail, 0, enc_heads(ts@, vs, tp), enc_tails(ts@, vs));
                lemma_enc_heads_len(ts@, vs, tp);
                rt_fields(ts@, vs, tail, 0, tp);
            }
        },
        _ => {},
    }
}

/// Shared argument for the two length-prefixed blob forms.
proof fn rt_blob(b: Seq<u8>, tail: Seq<u8>, enc0: Seq<u8>)
    requires
        tail.len() < pow256(32),
        enc0 == u256_word(b.len()) + b + zeroes(crate::words::pad_amount(b.len())),
        enc0.len() <= tail.len(),
        tail.take(enc0.len() as int) == enc0,
    ensures
        32 <= tail.len(),
        uint_val(tail.take(32)) == b.len(),
        32 + b.len() <= tail.len(),
        tail.subrange(32, 32 + b.len() as int) == b,
{
    lemma_be_bytes_len(b.len(), 32);
    assert(tail.subrange(0, enc0.len() as int) == enc0) by {
        assert(tail.take(enc0.len() as int) =~= tail.subrange(0, enc0.len() as int));
    }
    assert(enc0 =~= u256_word(b.len()) + (b + zeroes(crate::words::pad_amount(b.len()))));
    lemma_subrange_split(
        tail,
        0,
        u256_word(b.len()),
        b + zeroes(crate::words::pad_amount(b.len())),
    );
    assert(tail.take(32) =~= tail.subrange(0, 32));
    lemma_be_bytes_val(b.len(), 32);
    lemma_subrange_split(tail, 32, b, zeroes(crate::words::pad_amount(b.len())));
}

/// Decoding the head region of an encoded heterogeneous member list,
/// with its tails in place, recovers every member.
#[verifier::rlimit(100)]
#[verifier::spinoff_prover]
pub proof fn rt_fields(
    ts: Seq<AbiType>,
    vs: Seq<ValModel>,
    frame: Seq<u8>,
    pos: nat,
    tail_pos: nat,
)
    requires
        tys_valid(ts),
        fields_match(vs, ts),
        frame.len() < pow256(32),
        pos + heads_len(ts) <= frame.len(),
        frame.subrange(pos as int, (pos + heads_len(ts)) as int) == enc_heads(ts, vs, tail_pos),
        tail_pos + enc_tails(ts, vs).len() <= frame.len(),
        frame.subrange(tail_pos as int, (tail_pos + enc_tails(ts, vs).len()) as int) == enc_tails(
            ts,
            vs,
        ),
    ensures
        dec_fields(ts, frame, pos) == Some(vs),
    decreases ts, 0nat, 2nat,
{
    if ts.len() == 0 {
        assert(vs =~= Seq::<ValModel>::empty());
    } else {
        let t0 = ts[0];
        let v0 = vs[0];
        let ts1 = ts.drop_first();
        let vs1 = vs.drop_first();
        let enc0 = enc_value(t0, v0);
        assert(val_matches(v0, t0));
        assert(ty_valid(t0));
        assert(tys_valid(ts1) && fields_match(vs1, ts1)) by {
            assert forall|i: int| 0 <= i < ts1.len() implies ty_valid(#[trigger] ts1[i])
                && val_matches(vs1[i], ts1[i]) by {
                assert(ty_valid(ts[i + 1]));
                assert(val_matches(vs[i + 1], ts[i + 1]));
            }
        }
        if is_dynamic(t0) {
            let tp1 = tail_pos + enc0.len();
            lemma_be_bytes_len(tail_pos, 32);
            lemma_enc_heads_len(ts1, vs1, tp1);
            lemma_subrange_split(frame, pos as int, u256_word(tail_pos), enc_heads(ts1, vs1, tp1));
            lemma_be_bytes_val(tail_pos, 32);
            assert(uint_val(frame.subrange(pos as int, pos as int + 32)) == tail_pos);
            lemma_subrange_split(frame, tail_pos as int, enc0, enc_tails(ts1, vs1));
            let tail = frame.skip(tail_pos as int);
            assert(tail.take(enc0.len() as int) == enc0) by {
                assert(tail.take(enc0.len() as int) =~= frame.subrange(
                    tail_pos as int,
                    (tail_pos + enc0.len()) as int,
                ));
            }
            rt_one_dynamic(t0, v0, tail);
            assert(dec_one(t0, frame, pos) == Some(v0));
            rt_fields(ts1, vs1, frame, (pos + 32) as nat, tp1);
            assert(seq![v0] + vs1 =~= vs);
        } else {
            lemma_enc_value_len_static(t0, v0);
            lemma_enc_heads_len(ts1, vs1, tail_pos);
            lemma_subrange_split(frame, pos as int, enc0, enc_heads(ts1, vs1, tail_pos));
            rt_one_static(t0, v0, frame, pos);
            assert(enc_tails(ts, vs) == Seq::<u8>::empty() + enc_tails(ts1, vs1));
            assert(Seq::<u8>::empty() + enc_tails(ts1, vs1) =~= enc_tails(ts1, vs1));
            rt_fields(ts1, vs1, frame, pos + static_size(t0), tail_pos);
            assert(seq![v0] + vs1 =~= vs);
        }
    }
}

/// Decoding the head region of an encoded homogeneous block recovers
/// every element.
#[verifier::rlimit(100)]
#[verifier::spinoff_prover]
pub proof fn rt_items(e: AbiType, vs: Seq<ValModel>, frame: Seq<u8>, pos: nat, tail_pos: nat)
    requires
        ty_valid(e),
        items_match(vs, e),
        frame.len() < pow256(32),
        pos + vs.len() * head_size(e) <= frame.len(),
        frame.subrange(pos as int, (pos + vs.len() * head_size(e)) as int) == enc_items_heads(
            e,
            vs,
            tail_pos,
        ),
        tail_pos + enc_items_tails(e, vs).len() <= frame.len(),
        frame.subrange(
            tail_pos as int,
            (tail_pos + enc_items_tails(e, vs).len()) as int,
        ) == enc_items_tails(e, vs),
    ensures
        dec_items(e, vs.len(), frame, pos) == Some(vs),
    decreases e, vs.len(), 2nat,
{
    if vs.len() == 0 {
    } else {
        let v0 = vs[0];
        let vs1 = vs.drop_first();
        let enc0 = enc_value(e, v0);
        assert(val_matches(v0, e));
        assert(items_match(vs1, e)) by {
            assert forall|i: int| 0 <= i < vs1.len() implies val_matches(#[trigger] vs1[i], e) by {
                assert(val_matches(vs[i + 1], e));
            }
        }
        assert(vs.len() * head_size(e) == head_size(e) + vs1.len() * head_size(e))
            by (nonlinear_arith)
            requires
                vs.len() >= 1,
                vs1.len() == vs.len() - 1,
        ;
        if is_dynamic(e) {
            let tp1 = tail_pos + enc0.len();
            lemma_be_bytes_len(tail_pos, 32);
            lemma_enc_items_heads_len(e, vs1, tp1);
            lemma_subrange_split(
                frame,
                pos as int,
                u256_word(tail_pos),
                enc_items_heads(e, vs1, tp1),
            );
            lemma_be_bytes_val(tail_pos, 32);
            lemma_subrange_split(frame, tail_pos as int, enc0, enc_items_tails(e, vs1));
            let tail = frame.skip(tail_pos as int);
            assert(tail.take(enc0.len() as int) == enc0) by {
                assert(tail.take(enc0.len() as int) =~= frame.subrange(
                    tail_pos as int,
                    (tail_pos + enc0.len()) as int,
                ));
            }
            rt_one_dynamic(e, v0, tail);
            rt_items(e, vs1, frame, (pos + 32) as nat, tp1);
            assert(seq![v0] + vs1 =~= vs);
        } else {
            lemma_enc_value_len_static(e, v0);
            lemma_enc_items_heads_len(e, vs1, tail_pos);
            lemma_subrange_split(frame, pos as int, enc0, enc_items_heads(e, vs1, tail_pos));
            rt_one_static(e, v0, frame, pos);
            assert(enc_items_tails(e, vs) == Seq::<u8>::empty() + enc_items_tails(e, vs1));
            assert(Seq::<u8>::empty() + enc_items_tails(e, vs1) =~= enc_items_tails(e, vs1));
            rt_items(e, vs1, frame, pos + static_size(e), tail_pos);
            assert(seq![v0] + vs1 =~= vs);
        }
    }
}

/// Round trip with trailing bytes: decoding a buffer that begins with the
/// encoding of a matching member list yields exactly those members, and
/// never looks at what follows.
pub proof fn lemma_roundtrip_prefix(ts: Seq<AbiType>, vs: Seq<ValModel>, rest: Seq<u8>)
    requires
        tys_valid(ts),
        fields_match(vs, ts),
        enc_params(ts, vs).len() + rest.len() < pow256(32),
    ensures
        dec_params(ts, enc_params(ts, vs) + rest) == Some(vs),
{
    let frame = enc_params(ts, vs) + rest;
    let tp = heads_len(ts);
    lemma_enc_heads_len(ts, vs, tp);
    assert(frame.subrange(0, enc_params(ts, vs).len() as int) =~= enc_params(ts, vs));
    lemma_subrange_split(frame, 0, enc_heads(ts, vs, tp), enc_tails(ts, vs));
    rt_fields(ts, vs, frame, 0, tp);
}

/// Round trip proper: `dec_params` inverts `enc_params` on every
/// descriptor list and matching value list.
pub proof fn lemma_roundtrip(ts: Seq<AbiType>, vs: Seq<ValModel>)
    requires
        tys_valid(ts),
        fields_match(vs, ts),
        enc_params(ts, vs).len() < pow256(32),
    ensures
        dec_params(ts, enc_params(ts, vs)) == Some(vs),
{
    lemma_roundtrip_prefix(ts, vs, Seq::empty());
    assert(enc_params(ts, vs) + Seq::<u8>::empty() =~= enc_params(ts, vs));
}

} // verus!
