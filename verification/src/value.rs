//! Typed value trees and their structural match against a descriptor.
//!
//! `AbiValue` is the executable value tree; `ValModel` is its mathematical
//! model, used by every contract in the codec. Integer values carry their
//! big-endian payload bytes (exactly `bits / 8` of them), so a value's
//! width is part of its shape.

use vstd::pervasive::unreached;
use vstd::prelude::*;

use crate::types::AbiType;
use crate::words::{pow256, uint_val, lemma_uint_val_bound};

verus! {

/// Mathematical model of an ABI value tree.
pub enum ValModel {
    Bool(bool),
    /// Big-endian magnitude, exactly `bits / 8` bytes for a `Uint(bits)`.
    Uint(Seq<u8>),
    /// Big-endian two's complement, exactly `bits / 8` bytes.
    Int(Seq<u8>),
    /// Exactly 20 bytes.
    Address(Seq<u8>),
    /// Between 1 and 32 bytes, per the descriptor.
    FixedBytes(Seq<u8>),
    Bytes(Seq<u8>),
    /// The UTF-8 bytes of the string.
    Str(Seq<u8>),
    FixedArray(Seq<ValModel>),
    Array(Seq<ValModel>),
    Tuple(Seq<ValModel>),
}

/// Executable ABI value tree; its view is the `ValModel` with the same
/// structure.
#[derive(Debug, PartialEq, Eq)]
pub enum AbiValue {
    Bool(bool),
    Uint(Vec<u8>),
    Int(Vec<u8>),
    Address(Vec<u8>),
    FixedBytes(Vec<u8>),
    Bytes(Vec<u8>),
    Str(Vec<u8>),
    FixedArray(Vec<AbiValue>),
    Array(Vec<AbiValue>),
    Tuple(Vec<AbiValue>),
}

/// Element-wise view of a value list.
pub open spec fn vals_model(vs: Seq<AbiValue>) -> Seq<ValModel>
    decreases vs, 0nat,
{
    Seq::new(
        vs.len(),
        |i: int| if 0 <= i < vs.len() {
            vs[i]@
        } else {
            ValModel::Bool(false)
        },
    )
}

impl View for AbiValue {
    type V = ValModel;

    open spec fn view(&self) -> ValModel
        decreases self, 1nat,
    {
        match self {
            AbiValue::Bool(b) => ValModel::Bool(*b),
            AbiValue::Uint(b) => ValModel::Uint(b@),
            AbiValue::Int(b) => ValModel::Int(b@),
            AbiValue::Address(b) => ValModel::Address(b@),
            AbiValue::FixedBytes(b) => ValModel::FixedBytes(b@),
            AbiValue::Bytes(b) => ValModel::Bytes(b@),
            AbiValue::Str(b) => ValModel::Str(b@),
            AbiValue::FixedArray(vs) => ValModel::FixedArray(vals_model(vs@)),
            AbiValue::Array(vs) => ValModel::Array(vals_model(vs@)),
            AbiValue::Tuple(vs) => ValModel::Tuple(vals_model(vs@)),
        }
    }
}

/// Indexing into the view of a value list is the view of the element.
pub proof fn lemma_vals_model(vs: Seq<AbiValue>)
    ensures
        vals_model(vs).len() == vs.len(),
        forall|i: int| 0 <= i < vs.len() ==> vals_model(vs)[i] == vs[i]@,
{
}

/// Structural match of a value against its descriptor: same shape, every
/// sized payload exactly as long as the descriptor declares.
pub open spec fn val_matches(v: ValModel, t: AbiType) -> bool
    decreases t, 0nat,
{
    match t {
        AbiType::Bool => v is Bool,
        AbiType::Uint(bits) => v matches ValModel::Uint(b) && b.len() * 8 == bits,
        AbiType::Int(bits) => v matches ValModel::Int(b) && b.len() * 8 == bits,
        AbiType::Address => v matches ValModel::Address(b) && b.len() == 20,
        AbiType::FixedBytes(n) => v matches ValModel::FixedBytes(b) && b.len() == n,
        AbiType::Bytes => v is Bytes,
        AbiType::Str => v is Str,
        AbiType::FixedArray(e, n) => v matches ValModel::FixedArray(vs) && vs.len() == n
            && items_match(vs, *e),
        AbiType::Array(e) => v matches ValModel::Array(vs) && items_match(vs, *e),
        AbiType::Tuple(ts) => v matches ValModel::Tuple(vs) && fields_match(vs, ts@),
    }
}

/// Every element of a homogeneous array matches the element type.
pub open spec fn items_match(vs: Seq<ValModel>, e: AbiType) -> bool
    decreases e, 1nat,
{
    forall|i: int| 0 <= i < vs.len() ==> val_matches(#[trigger] vs[i], e)
}

/// A heterogeneous member list matches a descriptor list pointwise.
pub open spec fn fields_match(vs: Seq<ValModel>, ts: Seq<AbiType>) -> bool
    decreases ts, 1nat,
{
    vs.len() == ts.len() && forall|i: int|
        0 <= i < ts.len() ==> val_matches(vs[i], #[trigger] ts[i])
}


/// Copy a byte string.
pub fn bytes_dup(a: &Vec<u8>) -> (r: Vec<u8>)
    ensures
        r@ == a@,
{
    let n = a.len();
    let mut out: Vec<u8> = Vec::new();
    let mut i: usize = 0;
    while i < n
        invariant
            n == a@.len(),
            0 <= i <= n,
            out@ == a@.take(i as int),
        decreases n - i,
    {
        out.push(a[i]);
        proof {
            assert(a@.take(i as int + 1) =~= a@.take(i as int).push(a@[i as int]));
        }
        i = i + 1;
    }
    proof {
        assert(a@.take(n as int) =~= a@);
    }
    out
}

impl AbiValue {
    /// Numeric value of an unsigned integer payload of up to 8 bytes.
    pub fn uint_u64(&self) -> (r: u64)
        requires
            self@ matches ValModel::Uint(b) && b.len() <= 8,
        ensures
            r as nat == uint_val(self@->Uint_0),
    {
        match self {
            AbiValue::Uint(b) => {
                let n = b.len();
                let mut acc: u64 = 0;
                let mut j: usize = 0;
                while j < n
                    invariant
                        n == b@.len(),
                        n <= 8,
                        0 <= j <= n,
                        acc as nat == uint_val(b@.take(j as int)),
                    decreases n - j,
                {
                    proof {
                        lemma_uint_val_bound(b@.take(j as int));
                        reveal_with_fuel(pow256, 9);
                        assert(pow256(j as nat) <= pow256(7)) by {
                            lemma_pow256_mono(j as nat, 7);
                        }
                        assert(b@.take(j as int + 1).drop_last() =~= b@.take(j as int));
                        assert(b@.take(j as int + 1).last() == b@[j as int]);
                    }
                    acc = acc * 256 + (b[j] as u64);
                    j = j + 1;
                }
                proof {
                    assert(b@.take(n as int) =~= b@);
                }
                acc
            },
            _ => unreached(),
        }
    }

    /// Numeric value of an unsigned integer payload of up to 4 bytes.
    pub fn uint_u32(&self) -> (r: u32)
        requires
            self@ matches ValModel::Uint(b) && b.len() <= 4,
        ensures
            r as nat == uint_val(self@->Uint_0),
    {
        let v = self.uint_u64();
        proof {
            lemma_uint_val_bound(self@->Uint_0);
            reveal_with_fuel(pow256, 5);
            lemma_pow256_mono(self@->Uint_0.len(), 4);
        }
        v as u32
    }

    /// Numeric value of a one-byte unsigned integer payload.
    pub fn uint_u8(&self) -> (r: u8)
        requires
            self@ matches ValModel::Uint(b) && b.len() <= 1,
        ensures
            r as nat == uint_val(self@->Uint_0),
    {
        let v = self.uint_u64();
        proof {
            lemma_uint_val_bound(self@->Uint_0);
            reveal_with_fuel(pow256, 2);
            lemma_pow256_mono(self@->Uint_0.len(), 1);
        }
        v as u8
    }

    /// The payload of a boolean value.
    pub fn bool_value(&self) -> (r: bool)
        requires
            self@ is Bool,
        ensures
            self@ == ValModel::Bool(r),
    {
        match self {
            AbiValue::Bool(b) => *b,
            _ => unreached(),
        }
    }

    /// A copy of a fixed byte-array payload.
    pub fn fixed_bytes_value(&self) -> (r: Vec<u8>)
        requires
            self@ is FixedBytes,
        ensures
            self@ == ValModel::FixedBytes(r@),
    {
        match self {
            AbiValue::FixedBytes(b) => bytes_dup(b),
            _ => unreached(),
        }
    }

    /// A copy of an address payload.
    pub fn address_value(&self) -> (r: Vec<u8>)
        requires
            self@ is Address,
        ensures
            self@ == ValModel::Address(r@),
    {
        match self {
            AbiValue::Address(b) => bytes_dup(b),
            _ => unreached(),
        }
    }

    /// A copy of a dynamic byte-string payload.
    pub fn bytes_value(&self) -> (r: Vec<u8>)
        requires
            self@ is Bytes,
        ensures
            self@ == ValModel::Bytes(r@),
    {
        match self {
            AbiValue::Bytes(b) => bytes_dup(b),
            _ => unreached(),
        }
    }

    /// A copy of an unsigned integer payload's bytes.
    pub fn uint_bytes(&self) -> (r: Vec<u8>)
        requires
            self@ is Uint,
        ensures
            self@ == ValModel::Uint(r@),
    {
        match self {
            AbiValue::Uint(b) => bytes_dup(b),
            _ => unreached(),
        }
    }
}

/// `pow256` grows with its exponent.
pub proof fn lemma_pow256_mono(a: nat, b: nat)
    requires
        a <= b,
    ensures
        pow256(a) <= pow256(b),
    decreases b,
{
    if a < b {
        lemma_pow256_mono(a, (b - 1) as nat);
    }
}


} // verus!
