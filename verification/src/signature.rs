//! Canonical signature rendering: the ASCII byte string
//! `name(type,type,...)` whose hash identifies a schema on the wire.

use vstd::prelude::*;

use crate::types::{lemma_tys_height_elem, ty_height, tys_height, AbiType};

verus! {

/// Decimal ASCII digits of `n`, most significant first.
pub open spec fn dec_digits(n: nat) -> Seq<u8>
    decreases n,
{
    if n < 10 {
        seq![(48 + n) as u8]
    } else {
        dec_digits(n / 10).push((48 + n % 10) as u8)
    }
}

/// Canonical rendering of one type, e.g. `uint32`, `bytes32`,
/// `address`, `uint8[4]`, `(uint32,bytes)`.
pub open spec fn canon_ty(t: AbiType) -> Seq<u8>
    decreases t, 0nat,
{
    match t {
        AbiType::Bool => seq![98u8, 111u8, 111u8, 108u8],
        AbiType::Uint(bits) => seq![117u8, 105u8, 110u8, 116u8] + dec_digits(bits as nat),
        AbiType::Int(bits) => seq![105u8, 110u8, 116u8] + dec_digits(bits as nat),
        AbiType::Address => seq![97u8, 100u8, 100u8, 114u8, 101u8, 115u8, 115u8],
        AbiType::FixedBytes(n) => seq![98u8, 121u8, 116u8, 101u8, 115u8] + dec_digits(n as nat),
        AbiType::Bytes => seq![98u8, 121u8, 116u8, 101u8, 115u8],
        AbiType::Str => seq![115u8, 116u8, 114u8, 105u8, 110u8, 103u8],
        AbiType::FixedArray(e, n) => canon_ty(*e) + seq![91u8] + dec_digits(n as nat)
            + seq![93u8],
        AbiType::Array(e) => canon_ty(*e) + seq![91u8, 93u8],
        AbiType::Tuple(ts) => seq![40u8] + canon_list(ts@) + seq![41u8],
    }
}

/// Comma-joined canonical renderings of a type list.
pub open spec fn canon_list(ts: Seq<AbiType>) -> Seq<u8>
    decreases ts, 1nat,
{
    if ts.len() == 0 {
        Seq::empty()
    } else if ts.len() == 1 {
        canon_ty(ts[0])
    } else {
        canon_ty(ts[0]) + seq![44u8] + canon_list(ts.drop_first())
    }
}

/// The canonical signature `name(args)` of a schema.
pub open spec fn signature_bytes(name: Seq<u8>, ins: Seq<AbiType>) -> Seq<u8> {
    name + seq![40u8] + canon_list(ins) + seq![41u8]
}

/// Stepping a prefix of a joined list appends one separator and one
/// rendering.
pub proof fn lemma_canon_list_take(ts: Seq<AbiType>, i: int)
    requires
        0 <= i < ts.len(),
    ensures
        canon_list(ts.take(i + 1)) == if i == 0 {
            canon_ty(ts[0])
        } else {
            canon_list(ts.take(i)) + seq![44u8] + canon_ty(ts[i])
        },
    decreases i,
{
    if i == 0 {
        assert(ts.take(1)[0] == ts[0]);
    } else {
        let ts1 = ts.drop_first();
        lemma_canon_list_take(ts1, i - 1);
        assert(ts.take(i + 1)[0] == ts[0]);
        assert(ts.take(i + 1).drop_first() =~= ts1.take(i));
        assert(ts.take(i)[0] == ts[0]);
        assert(ts.take(i).drop_first() =~= ts1.take(i - 1));
        assert(ts1[i - 1] == ts[i]);
        if i == 1 {
            assert(canon_list(ts.take(2)) == canon_ty(ts[0]) + seq![44u8] + canon_list(
                ts1.take(1),
            ));
            assert(canon_list(ts1.take(1)) == canon_ty(ts1[0]));
            assert(canon_list(ts.take(1)) == canon_ty(ts[0]));
        } else {
            assert(canon_list(ts.take(i + 1)) == canon_ty(ts[0]) + seq![44u8] + canon_list(
                ts1.take(i),
            ));
            assert(canon_list(ts1.take(i)) == canon_list(ts1.take(i - 1)) + seq![44u8] + canon_ty(
                ts1[i - 1],
            ));
            assert(canon_list(ts.take(i)) == canon_ty(ts[0]) + seq![44u8] + canon_list(
                ts1.take(i - 1),
            ));
            assert((canon_ty(ts[0]) + seq![44u8] + (canon_list(ts1.take(i - 1)) + seq![44u8]
                + canon_ty(ts[i]))) =~= ((canon_ty(ts[0]) + seq![44u8] + canon_list(
                ts1.take(i - 1),
            )) + seq![44u8] + canon_ty(ts[i])));
        }
    }
}

/// Decimal ASCII digits of `n`, executable form.
pub fn dec_digits_x(n: u64) -> (r: Vec<u8>)
    ensures
        r@ == dec_digits(n as nat),
    decreases n,
{
    if n < 10 {
        let mut r: Vec<u8> = Vec::new();
        r.push(48 + n as u8);
        proof {
            assert(r@ =~= dec_digits(n as nat));
        }
        r
    } else {
        let mut r = dec_digits_x(n / 10);
        r.push(48 + (n % 10) as u8);
        proof {
            assert(r@ =~= dec_digits((n as nat) / 10).push((48 + (n as nat) % 10) as u8));
        }
        r
    }
}

/// Canonical rendering of one type, executable form.
pub fn canon_ty_x(t: &AbiType) -> (r: Vec<u8>)
    ensures
        r@ == canon_ty(*t),
    decreases ty_height(*t), 1nat,
{
    let mut out: Vec<u8> = Vec::new();
    match t {
        AbiType::Bool => {
            out.push(98);
            out.push(111);
            out.push(111);
            out.push(108);
            proof {
                assert(out@ =~= canon_ty(*t));
            }
        },
        AbiType::Uint(bits) => {
            out.push(117);
            out.push(105);
            out.push(110);
            out.push(116);
            let mut d = dec_digits_x(*bits as u64);
            out.append(&mut d);
            proof {
                assert(out@ =~= canon_ty(*t));
            }
        },
        AbiType::Int(bits) => {
            out.push(105);
            out.push(110);
            out.push(116);
            let mut d = dec_digits_x(*bits as u64);
            out.append(&mut d);
            proof {
                assert(out@ =~= canon_ty(*t));
            }
        },
        AbiType::Address => {
            out.push(97);
            out.push(100);
            out.push(100);
            out.push(114);
            out.push(101);
            out.push(115);
            out.push(115);
            proof {
                assert(out@ =~= canon_ty(*t));
            }
        },
        AbiType::FixedBytes(n) => {
            out.push(98);
            out.push(121);
            out.push(116);
            out.push(101);
            out.push(115);
            let mut d = dec_digits_x(*n as u64);
            out.append(&mut d);
            proof {
                assert(out@ =~= canon_ty(*t));
            }
        },
        AbiType::Bytes => {
            out.push(98);
            out.push(121);
            out.push(116);
            out.push(101);
            out.push(115);
            proof {
                assert(out@ =~= canon_ty(*t));
            }
        },
        AbiType::Str => {
            out.push(115);
            out.push(116);
            out.push(114);
            out.push(105);
            out.push(110);
            out.push(103);
            proof {
                assert(out@ =~= canon_ty(*t));
            }
        },
        AbiType::FixedArray(e, n) => {
            let mut inner = canon_ty_x(e);
            out.append(&mut inner);
            out.push(91);
            let mut d = dec_digits_x(*n as u64);
            out.append(&mut d);
            out.push(93);
            proof {
                assert(out@ =~= canon_ty(*t));
            }
        },
        AbiType::Array(e) => {
            let mut inner = canon_ty_x(e);
            out.append(&mut inner);
            out.push(91);
            out.push(93);
            proof {
                assert(out@ =~= canon_ty(*t));
            }
        },
        AbiType::Tuple(ts) => {
            out.push(40);
            let n = ts.len();
            let mut i: usize = 0;
            while i < n
                invariant
                    n == ts@.len(),
                    0 <= i <= n,
                    tys_height(ts@) < ty_height(*t),
                    out@ == seq![40u8] + canon_list(ts@.take(i as int)),
                decreases n - i,
            {
                proof {
                    lemma_tys_height_elem(ts@, i as int);
                }
                if i > 0 {
                    out.push(44);
                }
                let mut piece = canon_ty_x(&ts[i]);
                out.append(&mut piece);
                proof {
                    lemma_canon_list_take(ts@, i as int);
                    if i == 0 {
                        assert(out@ =~= seq![40u8] + canon_list(ts@.take(1)));
                    } else {
                        assert(out@ =~= seq![40u8] + canon_list(ts@.take(i as int + 1)));
                    }
                }
                i = i + 1;
            }
            out.push(41);
            proof {
                assert(ts@.take(n as int) =~= ts@);
                assert(out@ =~= canon_ty(*t));
            }
        },
    }
    out
}

/// Comma-joined canonical renderings, executable form.
pub fn canon_list_x(ts: &Vec<AbiType>) -> (r: Vec<u8>)
    ensures
        r@ == canon_list(ts@),
{
    let mut out: Vec<u8> = Vec::new();
    let n = ts.len();
    let mut i: usize = 0;
    proof {
        assert(out@ =~= canon_list(ts@.take(0)));
    }
    while i < n
        invariant
            n == ts@.len(),
            0 <= i <= n,
            out@ == canon_list(ts@.take(i as int)),
        decreases n - i,
    {
        if i > 0 {
            out.push(44);
        }
        let mut piece = canon_ty_x(&ts[i]);
        out.append(&mut piece);
        proof {
            lemma_canon_list_take(ts@, i as int);
            if i == 0 {
                assert(out@ =~= canon_list(ts@.take(1)));
            } else {
                assert(out@ =~= canon_list(ts@.take(i as int + 1)));
            }
        }
        i = i + 1;
    }
    proof {
        assert(ts@.take(n as int) =~= ts@);
    }
    out
}

/// The canonical signature `name(args)`, executable form.
pub fn signature_x(name: &Vec<u8>, ins: &Vec<AbiType>) -> (r: Vec<u8>)
    ensures
        r@ == signature_bytes(name@, ins@),
{
    let mut out: Vec<u8> = Vec::new();
    let mut j: usize = 0;
    let nl = name.len();
    while j < nl
        invariant
            nl == name@.len(),
            0 <= j <= nl,
            out@ == name@.take(j as int),
        decreases nl - j,
    {
        out.push(name[j]);
        proof {
            assert(name@.take(j as int + 1) =~= name@.take(j as int).push(name@[j as int]));
        }
        j = j + 1;
    }
    proof {
        assert(name@.take(nl as int) =~= name@);
    }
    out.push(40);
    let mut args = canon_list_x(ins);
    out.append(&mut args);
    out.push(41);
    proof {
        assert(out@ =~= signature_bytes(name@, ins@));
    }
    out
}

} // verus!
