//! The head/tail decoding of wire bytes into typed value trees, as a
//! mathematical partial function; `None` stands for malformed data.
//!
//! Decoding mirrors the encoder: heads are read from the front of the
//! block, a dynamic member's head is an offset that must land inside the
//! block, and its content is decoded from that point on. Every bounds
//! condition is checked, so the function is total over arbitrary bytes.

use vstd::prelude::*;
use vstd::slice::{slice_subrange, slice_to_vec};

use crate::errors::DecodingError;
use crate::types::{
    head_size, is_dynamic, lemma_head_size_min, lemma_tys_height_elem, ty_height, ty_valid,
    tys_height, tys_valid, AbiType,
};
use crate::value::{vals_model, AbiValue, ValModel};
use crate::words::{read_word_val, uint_val};

verus! {

/// Decode the member of type `t` whose head slot is at `pos` in `block`.
pub open spec fn dec_one(t: AbiType, block: Seq<u8>, pos: nat) -> Option<ValModel>
    decreases t, 0nat, 1nat,
{
    if is_dynamic(t) {
        if pos + 32 <= block.len() {
            let off = uint_val(block.subrange(pos as int, pos as int + 32));
            if off <= block.len() {
                dec_tail(t, block.skip(off as int))
            } else {
                None
            }
        } else {
            None
        }
    } else {
        if pos + 32 <= block.len() {
            match t {
                AbiType::Bool => Some(ValModel::Bool(block[pos as int + 31] != 0)),
                AbiType::Uint(bits) => if bits / 8 <= 32 {
                    Some(
                        ValModel::Uint(
                            block.subrange(pos + 32 - (bits / 8) as int, pos as int + 32),
                        ),
                    )
                } else {
                    None
                },
                AbiType::Int(bits) => if bits / 8 <= 32 {
                    Some(
                        ValModel::Int(block.subrange(pos + 32 - (bits / 8) as int, pos as int + 32)),
                    )
                } else {
                    None
                },
                AbiType::Address => Some(
                    ValModel::Address(block.subrange(pos as int + 12, pos as int + 32)),
                ),
                AbiType::FixedBytes(n) => if n <= 32 {
                    Some(ValModel::FixedBytes(block.subrange(pos as int, pos + n as int)))
                } else {
                    None
                },
                AbiType::FixedArray(e, n) => match dec_items(*e, n as nat, block, pos) {
                    Some(vs) => Some(ValModel::FixedArray(vs)),
                    None => None,
                },
                AbiType::Tuple(ts) => match dec_fields(ts@, block, pos) {
                    Some(vs) => Some(ValModel::Tuple(vs)),
                    None => None,
                },
                _ => None,
            }
        } else {
            None
        }
    }
}

/// Decode the tail content of a dynamic member that starts at the front
/// of `tail`.
pub open spec fn dec_tail(t: AbiType, tail: Seq<u8>) -> Option<ValModel>
    decreases t, 0nat, 0nat,
{
    match t {
        AbiType::Bytes => if 32 <= tail.len() {
            let l = uint_val(tail.take(32));
            if 32 + l <= tail.len() {
                Some(ValModel::Bytes(tail.subrange(32, 32 + l as int)))
            } else {
                None
            }
        } else {
            None
        },
        AbiType::Str => if 32 <= tail.len() {
            let l = uint_val(tail.take(32));
            if 32 + l <= tail.len() {
                Some(ValModel::Str(tail.subrange(32, 32 + l as int)))
            } else {
                None
            }
        } else {
            None
        },
        AbiType::Array(e) => if 32 <= tail.len() {
            let l = uint_val(tail.take(32));
            match dec_items(*e, l, tail.skip(32), 0) {
                Some(vs) => Some(ValModel::Array(vs)),
                None => None,
            }
        } else {
            None
        },
        AbiType::FixedArray(e, n) => match dec_items(*e, n as nat, tail, 0) {
            Some(vs) => Some(ValModel::FixedArray(vs)),
            None => None,
        },
        AbiType::Tuple(ts) => match dec_fields(ts@, tail, 0) {
            Some(vs) => Some(ValModel::Tuple(vs)),
            None => None,
        },
        _ => None,
    }
}

/// Decode a heterogeneous member list whose head region starts at `pos`.
pub open spec fn dec_fields(ts: Seq<AbiType>, block: Seq<u8>, pos: nat) -> Option<Seq<ValModel>>
    decreases ts, 0nat, 2nat,
{
    if ts.len() == 0 {
        Some(Seq::empty())
    } else {
        match dec_one(ts[0], block, pos) {
            Some(v) => match dec_fields(ts.drop_first(), block, pos + head_size(ts[0])) {
                Some(vs) => Some(seq![v] + vs),
                None => None,
            },
            None => None,
        }
    }
}

/// Decode `n` members of type `e` whose head region starts at `pos`.
pub open spec fn dec_items(e: AbiType, n: nat, block: Seq<u8>, pos: nat) -> Option<Seq<ValModel>>
    decreases e, n, 2nat,
{
    if n == 0 {
        Some(Seq::empty())
    } else {
        match dec_one(e, block, pos) {
            Some(v) => match dec_items(e, (n - 1) as nat, block, pos + head_size(e)) {
                Some(vs) => Some(seq![v] + vs),
                None => None,
            },
            None => None,
        }
    }
}

/// Top-level entry: decode the member list of a calldata body or return
/// data.
pub open spec fn dec_params(ts: Seq<AbiType>, data: Seq<u8>) -> Option<Seq<ValModel>> {
    dec_fields(ts, data, 0)
}

/// A decoded member always matches its descriptor: decoding cannot
/// produce a value of the wrong shape.
pub proof fn lemma_dec_one_matches(t: AbiType, block: Seq<u8>, pos: nat)
    requires
        ty_valid(t),
        dec_one(t, block, pos) is Some,
    ensures
        crate::value::val_matches(dec_one(t, block, pos)->Some_0, t),
    decreases t, 0nat, 1nat,
{
    if is_dynamic(t) {
        let off = uint_val(block.subrange(pos as int, pos as int + 32));
        lemma_dec_tail_matches(t, block.skip(off as int));
    } else {
        match t {
            AbiType::FixedArray(e, n) => {
                lemma_dec_items_matches(*e, n as nat, block, pos);
            },
            AbiType::Tuple(ts) => {
                lemma_dec_fields_matches(ts@, block, pos);
            },
            _ => {},
        }
    }
}

/// A decoded tail always matches its descriptor.
pub proof fn lemma_dec_tail_matches(t: AbiType, tail: Seq<u8>)
    requires
        ty_valid(t),
        dec_tail(t, tail) is Some,
    ensures
        crate::value::val_matches(dec_tail(t, tail)->Some_0, t),
    decreases t, 0nat, 0nat,
{
    match t {
        AbiType::Array(e) => {
            let l = uint_val(tail.take(32));
            lemma_dec_items_matches(*e, l, tail.skip(32), 0);
        },
        AbiType::FixedArray(e, n) => {
            lemma_dec_items_matches(*e, n as nat, tail, 0);
        },
        AbiType::Tuple(ts) => {
            lemma_dec_fields_matches(ts@, tail, 0);
        },
        _ => {},
    }
}

/// A decoded member list always matches its descriptor list.
pub proof fn lemma_dec_fields_matches(ts: Seq<AbiType>, block: Seq<u8>, pos: nat)
    requires
        tys_valid(ts),
        dec_fields(ts, block, pos) is Some,
    ensures
        crate::value::fields_match(dec_fields(ts, block, pos)->Some_0, ts),
    decreases ts, 0nat, 2nat,
{
    if ts.len() > 0 {
        let v = dec_one(ts[0], block, pos)->Some_0;
        lemma_dec_one_matches(ts[0], block, pos);
        assert forall|j: int| 0 <= j < ts.drop_first().len() implies crate::types::ty_valid(
            #[trigger] ts.drop_first()[j],
        ) by {
            assert(ty_valid(ts[j + 1]));
        }
        lemma_dec_fields_matches(ts.drop_first(), block, pos + head_size(ts[0]));
        let vs = dec_fields(ts.drop_first(), block, pos + head_size(ts[0]))->Some_0;
        let whole = seq![v] + vs;
        assert forall|j: int| 0 <= j < ts.len() implies crate::value::val_matches(
            whole[j],
            #[trigger] ts[j],
        ) by {
            if j == 0 {
            } else {
                assert(whole[j] == vs[j - 1]);
                assert(crate::value::val_matches(vs[j - 1], ts.drop_first()[j - 1]));
            }
        }
    }
}

/// Every decoded array element matches the element descriptor.
pub proof fn lemma_dec_items_matches(e: AbiType, n: nat, block: Seq<u8>, pos: nat)
    requires
        ty_valid(e),
        dec_items(e, n, block, pos) is Some,
    ensures
        crate::value::items_match(dec_items(e, n, block, pos)->Some_0, e),
        dec_items(e, n, block, pos)->Some_0.len() == n,
    decreases e, n, 2nat,
{
    if n > 0 {
        let v = dec_one(e, block, pos)->Some_0;
        lemma_dec_one_matches(e, block, pos);
        lemma_dec_items_matches(e, (n - 1) as nat, block, pos + head_size(e));
        let vs = dec_items(e, (n - 1) as nat, block, pos + head_size(e))->Some_0;
        let whole = seq![v] + vs;
        assert forall|j: int| 0 <= j < whole.len() implies crate::value::val_matches(
            #[trigger] whole[j],
            e,
        ) by {
            if j > 0 {
                assert(whole[j] == vs[j - 1]);
            }
        }
    }
}

/// More elements than the buffer has words for can never decode.
pub proof fn lemma_dec_items_bound(e: AbiType, n: nat, block: Seq<u8>, pos: nat)
    requires
        ty_valid(e),
        n >= 1,
        pos + n * 32 > block.len(),
    ensures
        dec_items(e, n, block, pos) is None,
    decreases n,
{
    lemma_head_size_min(e);
    if pos + 32 <= block.len() {
        assert(n >= 2) by (nonlinear_arith)
            requires
                pos + n * 32 > block.len(),
                pos + 32 <= block.len(),
                n >= 1,
        ;
        assert((pos + head_size(e)) + (n - 1) * 32 > block.len()) by (nonlinear_arith)
            requires
                pos + n * 32 > block.len(),
                head_size(e) >= 32,
                n >= 2,
        ;
        lemma_dec_items_bound(e, (n - 1) as nat, block, pos + head_size(e));
        assert(dec_items(e, (n - 1) as nat, block, pos + head_size(e)) is None);
    } else {
        assert(dec_one(e, block, pos) is None);
    }
}

/// Prepend an already-decoded prefix to a partial decode result.
pub open spec fn opt_concat(pre: Seq<ValModel>, rest: Option<Seq<ValModel>>) -> Option<
    Seq<ValModel>,
> {
    match rest {
        Some(s) => Some(pre + s),
        None => None,
    }
}

/// Decode one member whose head slot is at `pos`; the executable mirror
/// of `dec_one`, total over arbitrary bytes.
pub(crate) fn dx_one(t: &AbiType, block: &[u8], pos: usize) -> (r: Result<AbiValue, DecodingError>)
    requires
        ty_valid(*t),
    ensures
        match r {
            Ok(v) => dec_one(*t, block@, pos as nat) == Some(v@),
            Err(_) => dec_one(*t, block@, pos as nat) is None,
        },
    decreases ty_height(*t), 1nat,
{
    let blen: usize = block.len();
    if t.dynamic() {
        if !(blen >= 32 && pos <= blen - 32) {
            return Err(DecodingError::TooShort);
        }
        let off = match read_word_val(block, pos) {
            Some(o) => o,
            None => {
                return Err(DecodingError::OffsetOutOfRange);
            },
        };
        if off > blen {
            return Err(DecodingError::OffsetOutOfRange);
        }
        let tail = slice_subrange(block, off, blen);
        proof {
            assert(tail@ =~= block@.skip(off as int));
        }
        dx_tail(t, tail)
    } else {
        if !(blen >= 32 && pos <= blen - 32) {
            return Err(DecodingError::TooShort);
        }
        match t {
            AbiType::Bool => Ok(AbiValue::Bool(block[pos + 31] != 0)),
            AbiType::Uint(bits) => {
                let k = (*bits / 8) as usize;
                if k > 32 {
                    return Err(DecodingError::ShapeMismatch);
                }
                Ok(AbiValue::Uint(slice_to_vec(slice_subrange(block, pos + 32 - k, pos + 32))))
            },
            AbiType::Int(bits) => {
                let k = (*bits / 8) as usize;
                if k > 32 {
                    return Err(DecodingError::ShapeMismatch);
                }
                Ok(AbiValue::Int(slice_to_vec(slice_subrange(block, pos + 32 - k, pos + 32))))
            },
            AbiType::Address => Ok(
                AbiValue::Address(slice_to_vec(slice_subrange(block, pos + 12, pos + 32))),
            ),
            AbiType::FixedBytes(n) => {
                if *n > 32 {
                    return Err(DecodingError::ShapeMismatch);
                }
                Ok(AbiValue::FixedBytes(slice_to_vec(slice_subrange(block, pos, pos + *n))))
            },
            AbiType::FixedArray(e, n) => match dx_items(e, *n, block, pos) {
                Ok(vs) => {
                    proof {
                        crate::value::lemma_vals_model(vs@);
                    }
                    let r = AbiValue::FixedArray(vs);
                    Ok(r)
                },
                Err(d) => Err(d),
            },
            AbiType::Tuple(ts) => match dx_fields(ts, block, pos) {
                Ok(vs) => Ok(AbiValue::Tuple(vs)),
                Err(d) => Err(d),
            },
            _ => Err(DecodingError::ShapeMismatch),
        }
    }
}

/// Decode the tail content of a dynamic member from the front of `tail`.
fn dx_tail(t: &AbiType, tail: &[u8]) -> (r: Result<AbiValue, DecodingError>)
    requires
        ty_valid(*t),
    ensures
        match r {
            Ok(v) => dec_tail(*t, tail@) == Some(v@),
            Err(_) => dec_tail(*t, tail@) is None,
        },
    decreases ty_height(*t), 0nat,
{
    let tlen: usize = tail.len();
    match t {
        AbiType::Bytes => {
            if tlen < 32 {
                return Err(DecodingError::TooShort);
            }
            let l = match read_word_val(tail, 0) {
                Some(l) => l,
                None => {
                    return Err(DecodingError::LengthOutOfRange);
                },
            };
            proof {
                assert(tail@.take(32) =~= tail@.subrange(0, 32));
            }
            if l > tlen - 32 {
                return Err(DecodingError::LengthOutOfRange);
            }
            Ok(AbiValue::Bytes(slice_to_vec(slice_subrange(tail, 32, 32 + l))))
        },
        AbiType::Str => {
            if tlen < 32 {
                return Err(DecodingError::TooShort);
            }
            let l = match read_word_val(tail, 0) {
                Some(l) => l,
                None => {
                    return Err(DecodingError::LengthOutOfRange);
                },
            };
            proof {
                assert(tail@.take(32) =~= tail@.subrange(0, 32));
            }
            if l > tlen - 32 {
                return Err(DecodingError::LengthOutOfRange);
            }
            Ok(AbiValue::Str(slice_to_vec(slice_subrange(tail, 32, 32 + l))))
        },
        AbiType::Array(e) => {
            if tlen < 32 {
                return Err(DecodingError::TooShort);
            }
            let ghost spec_n = uint_val(tail@.take(32));
            proof {
                assert(tail@.take(32) =~= tail@.subrange(0, 32));
            }
            let l = match read_word_val(tail, 0) {
                Some(l) => l,
                None => {
                    proof {
                        assert(spec_n * 32 >= spec_n) by (nonlinear_arith);
                        lemma_dec_items_bound(**e, spec_n, tail@.skip(32), 0);
                    }
                    return Err(DecodingError::LengthOutOfRange);
                },
            };
            let frame = slice_subrange(tail, 32, tlen);
            proof {
                assert(frame@ =~= tail@.skip(32));
            }
            match dx_items(e, l, frame, 0) {
                Ok(vs) => Ok(AbiValue::Array(vs)),
                Err(d) => Err(d),
            }
        },
        AbiType::FixedArray(e, n) => match dx_items(e, *n, tail, 0) {
            Ok(vs) => Ok(AbiValue::FixedArray(vs)),
            Err(d) => Err(d),
        },
        AbiType::Tuple(ts) => match dx_fields(ts, tail, 0) {
            Ok(vs) => Ok(AbiValue::Tuple(vs)),
            Err(d) => Err(d),
        },
        _ => Err(DecodingError::ShapeMismatch),
    }
}

/// Decode `n` members of type `e` from successive head slots.
fn dx_items(e: &AbiType, n: usize, block: &[u8], pos: usize) -> (r: Result<
    Vec<AbiValue>,
    DecodingError,
>)
    requires
        ty_valid(*e),
    ensures
        match r {
            Ok(vs) => dec_items(*e, n as nat, block@, pos as nat) == Some(vals_model(vs@)),
            Err(_) => dec_items(*e, n as nat, block@, pos as nat) is None,
        },
    decreases ty_height(*e), 2nat,
{
    let blen: usize = block.len();
    let mut out: Vec<AbiValue> = Vec::new();
    let mut cur: usize = pos;
    let mut i: usize = 0;
    proof {
        assert(vals_model(out@) =~= Seq::<ValModel>::empty());
        let r0 = dec_items(*e, n as nat, block@, pos as nat);
        if r0 is Some {
            assert(vals_model(out@) + r0->Some_0 =~= r0->Some_0);
        }
    }
    while i < n
        invariant
            ty_valid(*e),
            0 <= i <= n,
            out@.len() == i,
            blen as nat == block@.len(),
            dec_items(*e, n as nat, block@, pos as nat) == opt_concat(
                vals_model(out@),
                dec_items(*e, (n - i) as nat, block@, cur as nat),
            ),
        decreases n - i,
    {
        let ghost old_out = out@;
        let ghost old_cur = cur as nat;
        let v = match dx_one(e, block, cur) {
            Ok(v) => v,
            Err(d) => {
                return Err(d);
            },
        };
        out.push(v);
        proof {
            assert(vals_model(out@) =~= vals_model(old_out) + seq![v@]);
        }
        if i + 1 < n {
            let hs = match e.head_len() {
                Some(h) => h,
                None => {
                    proof {
                        lemma_next_pos_fails(*e, (n - i) as nat, block@, old_cur, v@);
                    }
                    return Err(DecodingError::LengthOutOfRange);
                },
            };
            cur = match cur.checked_add(hs) {
                Some(c) => c,
                None => {
                    proof {
                        lemma_next_pos_fails(*e, (n - i) as nat, block@, old_cur, v@);
                    }
                    return Err(DecodingError::LengthOutOfRange);
                },
            };
        }
        proof {
            let rest = dec_items(*e, (n - i - 1) as nat, block@, old_cur + head_size(*e));
            assert(dec_items(*e, (n - i) as nat, block@, old_cur) == opt_concat(seq![v@], rest));
            if rest is Some {
                assert(vals_model(old_out) + (seq![v@] + rest->Some_0) =~= vals_model(out@)
                    + rest->Some_0);
            }
        }
        i = i + 1;
    }
    proof {
        assert(vals_model(out@) + Seq::<ValModel>::empty() =~= vals_model(out@));
    }
    Ok(out)
}

/// When the next head position cannot be a `usize`, the remaining items
/// cannot decode.
proof fn lemma_next_pos_fails(e: AbiType, m: nat, block: Seq<u8>, cur: nat, v0: ValModel)
    requires
        ty_valid(e),
        m >= 2,
        dec_one(e, block, cur) == Some(v0),
        cur + head_size(e) > usize::MAX,
        block.len() <= usize::MAX,
    ensures
        dec_items(e, m, block, cur) is None,
{
    assert(dec_one(e, block, cur + head_size(e)) is None);
    assert(dec_items(e, (m - 1) as nat, block, cur + head_size(e)) is None);
}

/// Decode a heterogeneous member list from successive head slots; the
/// executable mirror of `dec_fields`.
fn dx_fields(ts: &Vec<AbiType>, block: &[u8], pos: usize) -> (r: Result<
    Vec<AbiValue>,
    DecodingError,
>)
    requires
        tys_valid(ts@),
    ensures
        match r {
            Ok(vs) => dec_fields(ts@, block@, pos as nat) == Some(vals_model(vs@)),
            Err(_) => dec_fields(ts@, block@, pos as nat) is None,
        },
    decreases tys_height(ts@), 2nat,
{
    let n = ts.len();
    let blen: usize = block.len();
    let mut out: Vec<AbiValue> = Vec::new();
    let mut cur: usize = pos;
    let mut i: usize = 0;
    proof {
        assert(ts@.skip(0) =~= ts@);
        assert(vals_model(out@) =~= Seq::<ValModel>::empty());
        let r0 = dec_fields(ts@, block@, pos as nat);
        if r0 is Some {
            assert(vals_model(out@) + r0->Some_0 =~= r0->Some_0);
        }
    }
    while i < n
        invariant
            tys_valid(ts@),
            n == ts@.len(),
            0 <= i <= n,
            out@.len() == i,
            blen as nat == block@.len(),
            dec_fields(ts@, block@, pos as nat) == opt_concat(
                vals_model(out@),
                dec_fields(ts@.skip(i as int), block@, cur as nat),
            ),
        decreases n - i,
    {
        let ghost old_out = out@;
        let ghost old_cur = cur as nat;
        proof {
            lemma_tys_height_elem(ts@, i as int);
            assert(ts@.skip(i as int)[0] == ts@[i as int]);
            assert(ts@.skip(i as int).drop_first() =~= ts@.skip(i as int + 1));
        }
        let v = match dx_one(&ts[i], block, cur) {
            Ok(v) => v,
            Err(d) => {
                return Err(d);
            },
        };
        out.push(v);
        proof {
            assert(vals_model(out@) =~= vals_model(old_out) + seq![v@]);
        }
        if i + 1 < n {
            proof {
                lemma_tys_height_elem(ts@, i as int);
            }
            let hs = match ts[i].head_len() {
                Some(h) => h,
                None => {
                    proof {
                        lemma_fields_next_pos_fails(ts@.skip(i as int), block@, old_cur, v@);
                    }
                    return Err(DecodingError::LengthOutOfRange);
                },
            };
            cur = match cur.checked_add(hs) {
                Some(c) => c,
                None => {
                    proof {
                        lemma_fields_next_pos_fails(ts@.skip(i as int), block@, old_cur, v@);
                    }
                    return Err(DecodingError::LengthOutOfRange);
                },
            };
        }
        proof {
            let tsr = ts@.skip(i as int);
            let rest = dec_fields(ts@.skip(i as int + 1), block@, old_cur + head_size(ts@[i as int]));
            assert(dec_fields(tsr, block@, old_cur) == opt_concat(seq![v@], rest));
            if rest is Some {
                assert(vals_model(old_out) + (seq![v@] + rest->Some_0) =~= vals_model(out@)
                    + rest->Some_0);
            }
        }
        i = i + 1;
    }
    proof {
        assert(ts@.skip(n as int) =~= Seq::<AbiType>::empty());
        assert(vals_model(out@) + Seq::<ValModel>::empty() =~= vals_model(out@));
    }
    Ok(out)
}

/// When the next head position cannot be a `usize`, the remaining
/// members cannot decode.
proof fn lemma_fields_next_pos_fails(tsr: Seq<AbiType>, block: Seq<u8>, cur: nat, v0: ValModel)
    requires
        tsr.len() >= 2,
        dec_one(tsr[0], block, cur) == Some(v0),
        cur + head_size(tsr[0]) > usize::MAX,
        block.len() <= usize::MAX,
    ensures
        dec_fields(tsr, block, cur) is None,
{
    assert(tsr.drop_first()[0] == tsr[1]);
    assert(dec_one(tsr.drop_first()[0], block, cur + head_size(tsr[0])) is None);
    assert(dec_fields(tsr.drop_first(), block, cur + head_size(tsr[0])) is None);
}

/// Deserialize an ABI binary blob into the typed value list its
/// descriptor list promises.
///
/// Succeeds exactly when every descriptor is well formed and the bytes
/// decode under the head/tail rule; malformed or truncated data of any
/// shape yields an error, never a panic or an out-of-bounds read.
pub fn decode_params(ts: &Vec<AbiType>, data: &[u8]) -> (r: Result<Vec<AbiValue>, DecodingError>)
    ensures
        r matches Ok(vs) ==> tys_valid(ts@) && dec_params(ts@, data@) == Some(vals_model(vs@)),
        r is Err ==> !tys_valid(ts@) || dec_params(ts@, data@) is None,
{
    let n = ts.len();
    let mut i: usize = 0;
    while i < n
        invariant
            n == ts@.len(),
            0 <= i <= n,
            tys_valid(ts@.take(i as int)),
        decreases n - i,
    {
        let ok = ts[i].valid();
        proof {
            crate::types::lemma_tys_valid_take(ts@, i as int);
        }
        if !ok {
            return Err(DecodingError::ShapeMismatch);
        }
        i = i + 1;
    }
    proof {
        assert(ts@.take(n as int) =~= ts@);
    }
    dx_fields(ts, data, 0)
}

} // verus!
