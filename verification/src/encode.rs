//! The head/tail encoding of typed value trees, as a mathematical
//! function from descriptor and value to the byte sequence the wire
//! carries.
//!
//! Every top-level member owns one head slot. A statically sized member
//! is laid out inline in its slot; a dynamically sized member's slot
//! holds the byte offset, relative to the start of the enclosing block,
//! of its content in the trailing tail region. Tails appear in member
//! order. Nested dynamic content repeats the same rule in its own block.

use vstd::prelude::*;

use crate::errors::EncodingError;
use crate::roundtrip::{
    lemma_enc_heads_len, lemma_enc_items_heads_len, lemma_enc_value_len_static,
};
use crate::types::{
    heads_len, heads_total, head_size, is_dynamic, lemma_heads_len_skip, lemma_heads_len_split,
    lemma_tys_height_elem, ty_height, ty_valid, tys_height, tys_valid, AbiType,
};
use crate::value::{fields_match, items_match, val_matches, vals_model, AbiValue, ValModel};
use crate::words::{be_bytes, pad_amount, lpad32, rpad32, spad32, u256_word, zeroes};

verus! {

/// Full encoding of one value: for a static type its inline words, for a
/// dynamic type the tail block (length prefix included where the type has
/// one).
pub open spec fn enc_value(t: AbiType, v: ValModel) -> Seq<u8>
    decreases t, 0nat, 0nat,
{
    match t {
        AbiType::Bool => match v {
            ValModel::Bool(b) => zeroes(31).push(
                if b {
                    1u8
                } else {
                    0u8
                },
            ),
            _ => Seq::empty(),
        },
        AbiType::Uint(_) => match v {
            ValModel::Uint(b) => lpad32(b),
            _ => Seq::empty(),
        },
        AbiType::Int(_) => match v {
            ValModel::Int(b) => spad32(b),
            _ => Seq::empty(),
        },
        AbiType::Address => match v {
            ValModel::Address(b) => lpad32(b),
            _ => Seq::empty(),
        },
        AbiType::FixedBytes(_) => match v {
            ValModel::FixedBytes(b) => rpad32(b),
            _ => Seq::empty(),
        },
        AbiType::Bytes => match v {
            ValModel::Bytes(b) => u256_word(b.len()) + b + zeroes(pad_amount(b.len())),
            _ => Seq::empty(),
        },
        AbiType::Str => match v {
            ValModel::Str(b) => u256_word(b.len()) + b + zeroes(pad_amount(b.len())),
            _ => Seq::empty(),
        },
        AbiType::FixedArray(e, _) => match v {
            ValModel::FixedArray(vs) => enc_items_block(*e, vs),
            _ => Seq::empty(),
        },
        AbiType::Array(e) => match v {
            ValModel::Array(vs) => u256_word(vs.len()) + enc_items_block(*e, vs),
            _ => Seq::empty(),
        },
        AbiType::Tuple(ts) => match v {
            ValModel::Tuple(vs) => enc_block(ts@, vs),
            _ => Seq::empty(),
        },
    }
}

/// Head region of a heterogeneous block. `tail_pos` is the block-relative
/// offset at which the first remaining dynamic member's tail will land.
pub open spec fn enc_heads(ts: Seq<AbiType>, vs: Seq<ValModel>, tail_pos: nat) -> Seq<u8>
    decreases ts, 0nat, 0nat,
{
    if ts.len() == 0 {
        Seq::empty()
    } else {
        let head0 = if is_dynamic(ts[0]) {
            u256_word(tail_pos)
        } else {
            enc_value(ts[0], vs[0])
        };
        let next_tail = if is_dynamic(ts[0]) {
            tail_pos + enc_value(ts[0], vs[0]).len()
        } else {
            tail_pos
        };
        head0 + enc_heads(ts.drop_first(), vs.drop_first(), next_tail)
    }
}

/// Tail region of a heterogeneous block: the concatenated full encodings
/// of the dynamic members, in member order.
pub open spec fn enc_tails(ts: Seq<AbiType>, vs: Seq<ValModel>) -> Seq<u8>
    decreases ts, 0nat, 0nat,
{
    if ts.len() == 0 {
        Seq::empty()
    } else {
        let tail0 = if is_dynamic(ts[0]) {
            enc_value(ts[0], vs[0])
        } else {
            Seq::empty()
        };
        tail0 + enc_tails(ts.drop_first(), vs.drop_first())
    }
}

/// A whole heterogeneous block: heads first, tails after.
pub open spec fn enc_block(ts: Seq<AbiType>, vs: Seq<ValModel>) -> Seq<u8>
    decreases ts, 0nat, 1nat,
{
    enc_heads(ts, vs, heads_len(ts)) + enc_tails(ts, vs)
}

/// Head region of a homogeneous block (array contents).
pub open spec fn enc_items_heads(e: AbiType, vs: Seq<ValModel>, tail_pos: nat) -> Seq<u8>
    decreases e, vs.len(), 0nat,
{
    if vs.len() == 0 {
        Seq::empty()
    } else {
        let head0 = if is_dynamic(e) {
            u256_word(tail_pos)
        } else {
            enc_value(e, vs[0])
        };
        let next_tail = if is_dynamic(e) {
            tail_pos + enc_value(e, vs[0]).len()
        } else {
            tail_pos
        };
        head0 + enc_items_heads(e, vs.drop_first(), next_tail)
    }
}

/// Tail region of a homogeneous block.
pub open spec fn enc_items_tails(e: AbiType, vs: Seq<ValModel>) -> Seq<u8>
    decreases e, vs.len(), 0nat,
{
    if vs.len() == 0 {
        Seq::empty()
    } else {
        let tail0 = if is_dynamic(e) {
            enc_value(e, vs[0])
        } else {
            Seq::empty()
        };
        tail0 + enc_items_tails(e, vs.drop_first())
    }
}

/// A whole homogeneous block of `vs.len()` members of type `e`.
pub open spec fn enc_items_block(e: AbiType, vs: Seq<ValModel>) -> Seq<u8>
    decreases e, vs.len(), 1nat,
{
    enc_items_heads(e, vs, vs.len() * head_size(e)) + enc_items_tails(e, vs)
}

/// Top-level entry: the calldata body (or return data) of a member list.
pub open spec fn enc_params(ts: Seq<AbiType>, vs: Seq<ValModel>) -> Seq<u8> {
    enc_block(ts, vs)
}

/// Append `src` to `out`.
fn push_bytes(out: &mut Vec<u8>, src: &Vec<u8>)
    ensures
        final(out)@ == old(out)@ + src@,
{
    let n = src.len();
    let mut j: usize = 0;
    while j < n
        invariant
            n == src@.len(),
            0 <= j <= n,
            out@ == old(out)@ + src@.take(j as int),
        decreases n - j,
    {
        out.push(src[j]);
        proof {
            assert(old(out)@ + src@.take(j as int + 1) =~= (old(out)@ + src@.take(j as int)).push(
                src@[j as int],
            ));
        }
        j = j + 1;
    }
    proof {
        assert(src@.take(n as int) =~= src@);
    }
}

/// Append `k` copies of one byte to `out`.
fn push_repeat(out: &mut Vec<u8>, byte: u8, k: usize)
    ensures
        final(out)@ == old(out)@ + Seq::new(k as nat, |i: int| byte),
{
    let mut j: usize = 0;
    while j < k
        invariant
            0 <= j <= k,
            out@ == old(out)@ + Seq::new(j as nat, |i: int| byte),
        decreases k - j,
    {
        out.push(byte);
        proof {
            assert(old(out)@ + Seq::new(j as nat + 1, |i: int| byte) =~= (old(out)@ + Seq::new(
                j as nat,
                |i: int| byte,
            )).push(byte));
        }
        j = j + 1;
    }
}

/// The `k`-byte big-endian representation of `n`.
pub(crate) fn be_bytes_x(n: usize, k: usize) -> (r: Vec<u8>)
    ensures
        r@ == be_bytes(n as nat, k as nat),
    decreases k,
{
    if k == 0 {
        let r: Vec<u8> = Vec::new();
        proof {
            assert(r@ =~= be_bytes(n as nat, 0));
        }
        r
    } else {
        let mut r = be_bytes_x(n / 256, k - 1);
        r.push((n % 256) as u8);
        proof {
            assert(r@ =~= be_bytes((n / 256) as nat, (k - 1) as nat).push(
                ((n as nat) % 256) as u8,
            ));
        }
        r
    }
}

/// Append the 32-byte word holding `n` to `out`.
fn push_word(out: &mut Vec<u8>, n: usize)
    ensures
        final(out)@ == old(out)@ + u256_word(n as nat),
{
    let w = be_bytes_x(n, 32);
    push_bytes(out, &w);
}

/// Whether the value tree structurally matches the descriptor.
pub fn matches_ty(v: &AbiValue, t: &AbiType) -> (r: bool)
    ensures
        r == val_matches(v@, *t),
    decreases ty_height(*t), 0nat,
{
    match (t, v) {
        (AbiType::Bool, AbiValue::Bool(_)) => true,
        (AbiType::Uint(bits), AbiValue::Uint(b)) => *bits % 8 == 0 && b.len() == (*bits / 8)
            as usize,
        (AbiType::Int(bits), AbiValue::Int(b)) => *bits % 8 == 0 && b.len() == (*bits / 8) as usize,
        (AbiType::Address, AbiValue::Address(b)) => b.len() == 20,
        (AbiType::FixedBytes(n), AbiValue::FixedBytes(b)) => b.len() == *n,
        (AbiType::Bytes, AbiValue::Bytes(_)) => true,
        (AbiType::Str, AbiValue::Str(_)) => true,
        (AbiType::FixedArray(e, n), AbiValue::FixedArray(vs)) => vs.len() == *n && matches_items(
            vs,
            e,
        ),
        (AbiType::Array(e), AbiValue::Array(vs)) => matches_items(vs, e),
        (AbiType::Tuple(ts), AbiValue::Tuple(vs)) => {
            let n = ts.len();
            if vs.len() != n {
                return false;
            }
            let mut i: usize = 0;
            while i < n
                invariant
                    n == ts@.len(),
                    n == vs@.len(),
                    0 <= i <= n,
                    tys_height(ts@) < ty_height(*t),
                    (*t) matches AbiType::Tuple(tsv) && tsv@ == ts@,
                    (*v) matches AbiValue::Tuple(vsv) && vsv@ == vs@,
                    forall|j: int| 0 <= j < i ==> val_matches(vals_model(vs@)[j], #[trigger] ts@[j]),
                decreases n - i,
            {
                proof {
                    lemma_tys_height_elem(ts@, i as int);
                    crate::value::lemma_vals_model(vs@);
                }
                if !matches_ty(&vs[i], &ts[i]) {
                    return false;
                }
                i = i + 1;
            }
            true
        },
        _ => false,
    }
}

/// Whether every element matches the element type.
fn matches_items(vs: &Vec<AbiValue>, e: &AbiType) -> (r: bool)
    ensures
        r == items_match(vals_model(vs@), *e),
    decreases ty_height(*e), 1nat,
{
    let n = vs.len();
    proof {
        crate::value::lemma_vals_model(vs@);
    }
    let mut i: usize = 0;
    while i < n
        invariant
            n == vs@.len(),
            0 <= i <= n,
            forall|j: int| 0 <= j < i ==> val_matches(#[trigger] vals_model(vs@)[j], *e),
        decreases n - i,
    {
        proof {
            crate::value::lemma_vals_model(vs@);
        }
        if !matches_ty(&vs[i], e) {
            proof {
                assert(vals_model(vs@)[i as int] == vs@[i as int]@);
                assert(!val_matches(vals_model(vs@)[i as int], *e));
            }
            return false;
        }
        i = i + 1;
    }
    true
}

/// Serialize one matching value: the executable mirror of `enc_value`.
/// Fails only when the encoding cannot fit in one buffer.
fn ex_value(t: &AbiType, v: &AbiValue) -> (r: Result<Vec<u8>, EncodingError>)
    requires
        ty_valid(*t),
        val_matches(v@, *t),
    ensures
        match r {
            Ok(b) => b@ == enc_value(*t, v@),
            Err(er) => er == EncodingError::TooLong && enc_value(*t, v@).len() > usize::MAX,
        },
    decreases ty_height(*t), 1nat,
{
    match (t, v) {
        (AbiType::Bool, AbiValue::Bool(b)) => {
            let mut out: Vec<u8> = Vec::new();
            push_repeat(
                &mut out,
                0,
                31,
            );
            out.push(
                if *b {
                    1
                } else {
                    0
                },
            );
            proof {
                assert(out@ =~= enc_value(*t, v@));
            }
            Ok(out)
        },
        (AbiType::Uint(_), AbiValue::Uint(b)) => {
            let mut out: Vec<u8> = Vec::new();
            push_repeat(&mut out, 0, 32 - b.len());
            push_bytes(&mut out, b);
            proof {
                assert(out@ =~= enc_value(*t, v@));
            }
            Ok(out)
        },
        (AbiType::Int(_), AbiValue::Int(b)) => {
            let fill: u8 = if b[0] >= 128 {
                255
            } else {
                0
            };
            let mut out: Vec<u8> = Vec::new();
            push_repeat(&mut out, fill, 32 - b.len());
            push_bytes(&mut out, b);
            proof {
                assert(out@ =~= enc_value(*t, v@));
            }
            Ok(out)
        },
        (AbiType::Address, AbiValue::Address(b)) => {
            let mut out: Vec<u8> = Vec::new();
            push_repeat(&mut out, 0, 12);
            push_bytes(&mut out, b);
            proof {
                assert(out@ =~= enc_value(*t, v@));
            }
            Ok(out)
        },
        (AbiType::FixedBytes(_), AbiValue::FixedBytes(b)) => {
            let mut out: Vec<u8> = Vec::new();
            push_bytes(&mut out, b);
            push_repeat(&mut out, 0, 32 - b.len());
            proof {
                assert(out@ =~= enc_value(*t, v@));
            }
            Ok(out)
        },
        (AbiType::Bytes, AbiValue::Bytes(b)) => ex_blob(b, Ghost(enc_value(*t, v@))),
        (AbiType::Str, AbiValue::Str(b)) => ex_blob(b, Ghost(enc_value(*t, v@))),
        (AbiType::FixedArray(e, _), AbiValue::FixedArray(vs)) => ex_items_block(e, vs),
        (AbiType::Array(e), AbiValue::Array(vs)) => {
            let body = match ex_items_block(e, vs) {
                Ok(body) => body,
                Err(er) => {
                    return Err(er);
                },
            };
            if usize::MAX - 32 < body.len() {
                proof {
                    crate::words::lemma_be_bytes_len(vs@.len(), 32);
                }
                return Err(EncodingError::TooLong);
            }
            let mut out: Vec<u8> = Vec::new();
            push_word(&mut out, vs.len());
            push_bytes(&mut out, &body);
            proof {
                assert(out@ =~= enc_value(*t, v@));
            }
            Ok(out)
        },
        (AbiType::Tuple(ts), AbiValue::Tuple(vs)) => ex_block_inner(
            ts,
            vs,
            Ghost(ty_height(*t)),
        ),
        _ => {
            proof {
                assert(false);
            }
            Err(EncodingError::TooLong)
        },
    }
}

/// Serialize a length-prefixed blob: its length word, its content, and
/// zero padding to a word boundary.
fn ex_blob(b: &Vec<u8>, expected: Ghost<Seq<u8>>) -> (r: Result<Vec<u8>, EncodingError>)
    requires
        expected@ == u256_word(b@.len()) + b@ + zeroes(pad_amount(b@.len())),
    ensures
        match r {
            Ok(o) => o@ == expected@,
            Err(er) => er == EncodingError::TooLong && expected@.len() > usize::MAX,
        },
{
    let l = b.len();
    let rem = l % 32;
    let pad: usize = if rem == 0 {
        0
    } else {
        32 - rem
    };
    proof {
        assert(pad as nat == pad_amount(b@.len()));
        crate::words::lemma_be_bytes_len(b@.len(), 32);
    }
    if usize::MAX - 32 < l || usize::MAX - 32 - l < pad {
        return Err(EncodingError::TooLong);
    }
    let mut out: Vec<u8> = Vec::new();
    push_word(&mut out, l);
    push_bytes(&mut out, b);
    push_repeat(&mut out, 0, pad);
    proof {
        assert(out@ =~= expected@);
    }
    Ok(out)
}

/// Serialize a homogeneous block: heads first, tails after.
fn ex_items_block(e: &AbiType, vs: &Vec<AbiValue>) -> (r: Result<Vec<u8>, EncodingError>)
    requires
        ty_valid(*e),
        items_match(vals_model(vs@), *e),
    ensures
        match r {
            Ok(b) => b@ == enc_items_block(*e, vals_model(vs@)),
            Err(er) => er == EncodingError::TooLong && enc_items_block(*e, vals_model(vs@)).len()
                > usize::MAX,
        },
    decreases ty_height(*e), 2nat,
{
    let ghost vsm = vals_model(vs@);
    let n = vs.len();
    let hs = match e.head_len() {
        Some(h) => h,
        None => {
            if n == 0 {
                let out: Vec<u8> = Vec::new();
                proof {
                    assert(out@ =~= enc_items_block(*e, vsm));
                }
                return Ok(out);
            }
            proof {
                lemma_enc_items_heads_len(*e, vsm, n as nat * head_size(*e));
                assert(n as nat * head_size(*e) >= 1 * head_size(*e)) by (nonlinear_arith)
                    requires
                        n >= 1,
                ;
            }
            return Err(EncodingError::TooLong);
        },
    };
    let tp0 = match n.checked_mul(hs) {
        Some(tp0) => tp0,
        None => {
            proof {
                lemma_enc_items_heads_len(*e, vsm, n as nat * head_size(*e));
            }
            return Err(EncodingError::TooLong);
        },
    };
    let dynamic = e.dynamic();
    let mut heads: Vec<u8> = Vec::new();
    let mut tails: Vec<u8> = Vec::new();
    let mut i: usize = 0;
    proof {
        assert(vsm.skip(0) =~= vsm);
        assert(heads@ =~= Seq::<u8>::empty());
    }
    while i < n
        invariant
            ty_valid(*e),
            items_match(vsm, *e),
            vsm == vals_model(vs@),
            n == vs@.len(),
            0 <= i <= n,
            dynamic == is_dynamic(*e),
            tp0 as nat == n as nat * head_size(*e),
            enc_items_heads(*e, vsm, tp0 as nat) == heads@ + enc_items_heads(
                *e,
                vsm.skip(i as int),
                tp0 as nat + tails@.len(),
            ),
            enc_items_tails(*e, vsm) == tails@ + enc_items_tails(*e, vsm.skip(i as int)),
            tp0 + tails@.len() <= usize::MAX || i == n,
        decreases n - i,
    {
        let ghost vsr = vsm.skip(i as int);
        proof {
            assert(vsr[0] == vsm[i as int]);
            assert(vsm[i as int] == vs@[i as int]@);
            assert(vsr.drop_first() =~= vsm.skip(i as int + 1));
        }
        let enc0 = match ex_value(e, &vs[i]) {
            Ok(enc0) => enc0,
            Err(er) => {
                proof {
                    if !is_dynamic(*e) {
                        lemma_enc_value_len_static(*e, vsm[i as int]);
                        lemma_enc_items_heads_len(*e, vsm, tp0 as nat);
                        lemma_items_skip_heads_len(*e, vsm, i as int, tp0 as nat + tails@.len());
                    }
                }
                return Err(EncodingError::TooLong);
            },
        };
        if dynamic {
            let tail_pos = tp0 + tails.len();
            push_word(&mut heads, tail_pos);
            push_bytes(&mut tails, &enc0);
            proof {
                assert(enc_items_heads(*e, vsr, tail_pos as nat) == u256_word(tail_pos as nat)
                    + enc_items_heads(*e, vsm.skip(i as int + 1), tail_pos as nat + enc0@.len()));
                assert(enc_items_tails(*e, vsr) == enc0@ + enc_items_tails(
                    *e,
                    vsm.skip(i as int + 1),
                ));
            }
            if i + 1 < n {
                if usize::MAX - tp0 < tails.len() {
                    proof {
                        lemma_enc_items_heads_len(*e, vsm, tp0 as nat);
                        assert(enc_items_tails(*e, vsm).len() >= tails@.len());
                    }
                    return Err(EncodingError::TooLong);
                }
            }
        } else {
            push_bytes(&mut heads, &enc0);
            proof {
                assert(enc_items_heads(*e, vsr, tp0 as nat + tails@.len()) == enc0@
                    + enc_items_heads(*e, vsm.skip(i as int + 1), tp0 as nat + tails@.len()));
                assert(enc_items_tails(*e, vsr) == Seq::<u8>::empty() + enc_items_tails(
                    *e,
                    vsm.skip(i as int + 1),
                ));
                assert(Seq::<u8>::empty() + enc_items_tails(*e, vsm.skip(i as int + 1)) =~=
                    enc_items_tails(*e, vsm.skip(i as int + 1)));
                assert(tails@ + Seq::<u8>::empty() =~= tails@);
            }
        }
        i = i + 1;
    }
    proof {
        assert(vsm.skip(n as int) =~= Seq::<ValModel>::empty());
        assert(heads@ + Seq::<u8>::empty() =~= heads@);
        assert(tails@ + Seq::<u8>::empty() =~= tails@);
    }
    let mut out = heads;
    let mut t2 = tails;
    out.append(&mut t2);
    Ok(out)
}

/// The tail region of a suffix is part of the whole block's length.
proof fn lemma_items_skip_heads_len(e: AbiType, vsm: Seq<ValModel>, i: int, tp: nat)
    requires
        0 <= i < vsm.len(),
        items_match(vsm, e),
        ty_valid(e),
    ensures
        enc_items_heads(e, vsm.skip(i), tp).len() >= enc_value(e, vsm[i]).len() || is_dynamic(e),
{
    if !is_dynamic(e) {
        let vsr = vsm.skip(i);
        assert(vsr[0] == vsm[i]);
        assert(enc_items_heads(e, vsr, tp) == enc_value(e, vsr[0]) + enc_items_heads(
            e,
            vsr.drop_first(),
            tp,
        ));
    }
}

/// Serialize a heterogeneous block: heads first, tails after. The ghost
/// bound carries the caller's recursion measure.
fn ex_block_inner(ts: &Vec<AbiType>, vs: &Vec<AbiValue>, bound: Ghost<nat>) -> (r: Result<
    Vec<u8>,
    EncodingError,
>)
    requires
        tys_valid(ts@),
        fields_match(vals_model(vs@), ts@),
        tys_height(ts@) < bound@,
    ensures
        match r {
            Ok(b) => b@ == enc_block(ts@, vals_model(vs@)),
            Err(er) => er == EncodingError::TooLong && enc_block(ts@, vals_model(vs@)).len()
                > usize::MAX,
        },
    decreases bound@, 0nat,
{
    let ghost vsm = vals_model(vs@);
    let n = ts.len();
    let tp0 = match heads_total(ts) {
        Some(tp0) => tp0,
        None => {
            proof {
                lemma_enc_heads_len(ts@, vsm, heads_len(ts@));
            }
            return Err(EncodingError::TooLong);
        },
    };
    let mut heads: Vec<u8> = Vec::new();
    let mut tails: Vec<u8> = Vec::new();
    let mut i: usize = 0;
    proof {
        assert(vsm.skip(0) =~= vsm);
        assert(ts@.skip(0) =~= ts@);
        assert(heads@ =~= Seq::<u8>::empty());
    }
    while i < n
        invariant
            tys_valid(ts@),
            fields_match(vsm, ts@),
            vsm == vals_model(vs@),
            n == ts@.len(),
            n == vs@.len(),
            0 <= i <= n,
            tp0 as nat == heads_len(ts@),
            tys_height(ts@) < bound@,
            enc_heads(ts@, vsm, tp0 as nat) == heads@ + enc_heads(
                ts@.skip(i as int),
                vsm.skip(i as int),
                tp0 as nat + tails@.len(),
            ),
            enc_tails(ts@, vsm) == tails@ + enc_tails(ts@.skip(i as int), vsm.skip(i as int)),
            tp0 + tails@.len() <= usize::MAX || i == n,
        decreases n - i,
    {
        let ghost tsr = ts@.skip(i as int);
        let ghost vsr = vsm.skip(i as int);
        proof {
            assert(tsr[0] == ts@[i as int]);
            assert(vsr[0] == vsm[i as int]);
            assert(vsm[i as int] == vs@[i as int]@);
            assert(tsr.drop_first() =~= ts@.skip(i as int + 1));
            assert(vsr.drop_first() =~= vsm.skip(i as int + 1));
            lemma_tys_height_elem(ts@, i as int);
        }
        let dynamic = ts[i].dynamic();
        let enc0 = match ex_value(&ts[i], &vs[i]) {
            Ok(enc0) => enc0,
            Err(er) => {
                proof {
                    if !is_dynamic(ts@[i as int]) {
                        lemma_enc_value_len_static(ts@[i as int], vsm[i as int]);
                        lemma_heads_len_split(ts@, i as int);
                        lemma_heads_len_skip(ts@, i as int);
                    }
                }
                return Err(EncodingError::TooLong);
            },
        };
        if dynamic {
            let tail_pos = tp0 + tails.len();
            push_word(&mut heads, tail_pos);
            push_bytes(&mut tails, &enc0);
            proof {
                assert(enc_heads(tsr, vsr, tail_pos as nat) == u256_word(tail_pos as nat)
                    + enc_heads(
                    ts@.skip(i as int + 1),
                    vsm.skip(i as int + 1),
                    tail_pos as nat + enc0@.len(),
                ));
                assert(enc_tails(tsr, vsr) == enc0@ + enc_tails(
                    ts@.skip(i as int + 1),
                    vsm.skip(i as int + 1),
                ));
            }
            if i + 1 < n {
                if usize::MAX - tp0 < tails.len() {
                    proof {
                        lemma_enc_heads_len(ts@, vsm, tp0 as nat);
                        assert(enc_tails(ts@, vsm).len() >= tails@.len());
                    }
                    return Err(EncodingError::TooLong);
                }
            }
        } else {
            push_bytes(&mut heads, &enc0);
            proof {
                assert(enc_heads(tsr, vsr, tp0 as nat + tails@.len()) == enc0@ + enc_heads(
                    ts@.skip(i as int + 1),
                    vsm.skip(i as int + 1),
                    tp0 as nat + tails@.len(),
                ));
                assert(enc_tails(tsr, vsr) == Seq::<u8>::empty() + enc_tails(
                    ts@.skip(i as int + 1),
                    vsm.skip(i as int + 1),
                ));
                assert(Seq::<u8>::empty() + enc_tails(
                    ts@.skip(i as int + 1),
                    vsm.skip(i as int + 1),
                ) =~= enc_tails(ts@.skip(i as int + 1), vsm.skip(i as int + 1)));
                assert(tails@ + Seq::<u8>::empty() =~= tails@);
            }
        }
        i = i + 1;
    }
    proof {
        assert(ts@.skip(n as int) =~= Seq::<AbiType>::empty());
        assert(vsm.skip(n as int) =~= Seq::<ValModel>::empty());
        assert(heads@ + Seq::<u8>::empty() =~= heads@);
        assert(tails@ + Seq::<u8>::empty() =~= tails@);
    }
    let mut out = heads;
    let mut t2 = tails;
    out.append(&mut t2);
    Ok(out)
}

/// Serialize a typed value list into the ABI head/tail wire format.
///
/// Succeeds exactly when every descriptor is well formed, every value's
/// shape matches its descriptor, and the encoding fits in one buffer.
pub fn encode_params(ts: &Vec<AbiType>, vs: &Vec<AbiValue>) -> (r: Result<Vec<u8>, EncodingError>)
    ensures
        r matches Ok(b) ==> tys_valid(ts@) && fields_match(vals_model(vs@), ts@) && b@
            == enc_params(ts@, vals_model(vs@)),
        r == Err::<Vec<u8>, EncodingError>(EncodingError::ShapeMismatch) <==> !(tys_valid(ts@) && fields_match(
            vals_model(vs@),
            ts@,
        )),
        r == Err::<Vec<u8>, EncodingError>(EncodingError::TooLong) <==> tys_valid(ts@) && fields_match(vals_model(vs@), ts@)
            && enc_params(ts@, vals_model(vs@)).len() > usize::MAX,
{
    let n = ts.len();
    if vs.len() != n {
        return Err(EncodingError::ShapeMismatch);
    }
    let mut i: usize = 0;
    while i < n
        invariant
            n == ts@.len(),
            n == vs@.len(),
            0 <= i <= n,
            tys_valid(ts@.take(i as int)),
            forall|j: int| 0 <= j < i ==> val_matches(vals_model(vs@)[j], #[trigger] ts@[j]),
        decreases n - i,
    {
        let ok = ts[i].valid();
        proof {
            crate::types::lemma_tys_valid_take(ts@, i as int);
        }
        if !ok {
            return Err(EncodingError::ShapeMismatch);
        }
        if !matches_ty(&vs[i], &ts[i]) {
            return Err(EncodingError::ShapeMismatch);
        }
        i = i + 1;
    }
    proof {
        assert(ts@.take(n as int) =~= ts@);
    }
    match ex_block_inner(ts, vs, Ghost(tys_height(ts@) + 1)) {
        Ok(b) => {
            let l = b.len();
            proof {
                assert(l as nat == enc_params(ts@, vals_model(vs@)).len());
            }
            Ok(b)
        },
        Err(er) => Err(er),
    }
}

} // verus!
