//! Type descriptors: the canonical representation of an ABI value's type.
//!
//! A descriptor is immutable pure data, built once per schema. Descriptors
//! with an out-of-range bit width or array length are rejected at
//! construction time by the checked constructors.

use vstd::prelude::*;

use crate::errors::SchemaError;

verus! {

/// Canonical representation of an ABI type: elementary, fixed-size,
/// dynamic, array or tuple.
///
/// Integer widths are in bits; `FixedBytes` lengths are in bytes.
#[derive(Debug, PartialEq, Eq)]
pub enum AbiType {
    Bool,
    Uint(u32),
    Int(u32),
    Address,
    FixedBytes(usize),
    Bytes,
    Str,
    FixedArray(Box<AbiType>, usize),
    Array(Box<AbiType>),
    Tuple(Vec<AbiType>),
}

/// A descriptor is well formed when every integer width is a positive
/// multiple of 8 up to 256, every fixed byte length lies in 1..=32, and
/// every fixed array is non-empty.
pub open spec fn ty_valid(t: AbiType) -> bool
    decreases t,
{
    match t {
        AbiType::Bool => true,
        AbiType::Uint(bits) => 0 < bits <= 256 && bits % 8 == 0,
        AbiType::Int(bits) => 0 < bits <= 256 && bits % 8 == 0,
        AbiType::Address => true,
        AbiType::FixedBytes(n) => 1 <= n <= 32,
        AbiType::Bytes => true,
        AbiType::Str => true,
        AbiType::FixedArray(e, n) => n >= 1 && ty_valid(*e),
        AbiType::Array(e) => ty_valid(*e),
        AbiType::Tuple(ts) => ts@.len() >= 1 && forall|i: int|
            0 <= i < ts@.len() ==> ty_valid(#[trigger] ts@[i]),
    }
}

pub open spec fn tys_valid(ts: Seq<AbiType>) -> bool {
    forall|i: int| 0 <= i < ts.len() ==> ty_valid(#[trigger] ts[i])
}

/// A type is dynamically sized when its encoding is referenced from its
/// head slot by offset rather than placed inline.
pub open spec fn is_dynamic(t: AbiType) -> bool
    decreases t,
{
    match t {
        AbiType::Bytes => true,
        AbiType::Str => true,
        AbiType::Array(_) => true,
        AbiType::FixedArray(e, _) => is_dynamic(*e),
        AbiType::Tuple(ts) => exists|i: int| 0 <= i < ts@.len() && is_dynamic(#[trigger] ts@[i]),
        _ => false,
    }
}

pub open spec fn any_dynamic(ts: Seq<AbiType>) -> bool {
    exists|i: int| 0 <= i < ts.len() && is_dynamic(#[trigger] ts[i])
}

/// Number of bytes a statically sized value of type `t` occupies inline.
/// Meaningful only when `!is_dynamic(t)`.
pub open spec fn static_size(t: AbiType) -> nat
    decreases t, 1nat,
{
    match t {
        AbiType::FixedArray(e, n) => (n * static_size(*e)) as nat,
        AbiType::Tuple(ts) => heads_len(ts@),
        _ => 32,
    }
}

/// Number of bytes the head slot of type `t` occupies: one 32-byte word
/// for a dynamic type (the offset), the full inline size otherwise.
pub open spec fn head_size(t: AbiType) -> nat
    decreases t, 2nat,
{
    if is_dynamic(t) {
        32
    } else {
        static_size(t)
    }
}

/// Total size of the head region of a block with member types `ts`.
pub open spec fn heads_len(ts: Seq<AbiType>) -> nat
    decreases ts, 3nat,
{
    if ts.len() == 0 {
        0
    } else {
        head_size(ts[0]) + heads_len(ts.drop_first())
    }
}

/// Nesting depth of a descriptor: the measure the executable recursion
/// over descriptors decreases.
pub open spec fn ty_height(t: AbiType) -> nat
    decreases t,
{
    match t {
        AbiType::FixedArray(e, _) => 1 + ty_height(*e),
        AbiType::Array(e) => 1 + ty_height(*e),
        AbiType::Tuple(ts) => 1 + tys_height(ts@),
        _ => 0,
    }
}

/// Largest nesting depth in a descriptor list.
pub open spec fn tys_height(ts: Seq<AbiType>) -> nat
    decreases ts,
{
    if ts.len() == 0 {
        0
    } else {
        let h0 = ty_height(ts[0]);
        let hr = tys_height(ts.drop_first());
        if h0 > hr {
            h0
        } else {
            hr
        }
    }
}

/// Every element's depth is bounded by the list's depth.
pub proof fn lemma_tys_height_elem(ts: Seq<AbiType>, i: int)
    requires
        0 <= i < ts.len(),
    ensures
        ty_height(ts[i]) <= tys_height(ts),
    decreases i,
{
    if i > 0 {
        lemma_tys_height_elem(ts.drop_first(), i - 1);
    }
}

/// The head region splits at any member boundary.
pub proof fn lemma_heads_len_split(ts: Seq<AbiType>, i: int)
    requires
        0 <= i <= ts.len(),
    ensures
        heads_len(ts) == heads_len(ts.take(i)) + heads_len(ts.skip(i)),
    decreases i,
{
    if i == 0 {
        assert(ts.take(0) =~= Seq::<AbiType>::empty());
        assert(ts.skip(0) =~= ts);
    } else {
        lemma_heads_len_split(ts.drop_first(), i - 1);
        assert(ts.take(i).drop_first() =~= ts.drop_first().take(i - 1));
        assert(ts.take(i)[0] == ts[0]);
        assert(ts.skip(i) =~= ts.drop_first().skip(i - 1));
    }
}

/// The head region of a non-empty suffix starts with one full head slot.
pub proof fn lemma_heads_len_skip(ts: Seq<AbiType>, i: int)
    requires
        0 <= i < ts.len(),
    ensures
        heads_len(ts.skip(i)) == head_size(ts[i]) + heads_len(ts.skip(i + 1)),
{
    assert(ts.skip(i)[0] == ts[i]);
    assert(ts.skip(i).drop_first() =~= ts.skip(i + 1));
}

/// Membership of one dynamic element extends through a prefix step.
pub proof fn lemma_any_dynamic_take(ts: Seq<AbiType>, i: int)
    requires
        0 <= i < ts.len(),
    ensures
        any_dynamic(ts.take(i + 1)) == (any_dynamic(ts.take(i)) || is_dynamic(ts[i])),
{
    if is_dynamic(ts[i]) {
        assert(ts.take(i + 1)[i] == ts[i]);
        assert(any_dynamic(ts.take(i + 1)));
    } else if any_dynamic(ts.take(i)) {
        let j = choose|j: int| 0 <= j < i && is_dynamic(#[trigger] ts.take(i)[j]);
        assert(ts.take(i + 1)[j] == ts.take(i)[j]);
        assert(any_dynamic(ts.take(i + 1)));
    } else {
        if any_dynamic(ts.take(i + 1)) {
            let j = choose|j: int| 0 <= j < i + 1 && is_dynamic(#[trigger] ts.take(i + 1)[j]);
            if j < i {
                assert(ts.take(i)[j] == ts.take(i + 1)[j]);
                assert(any_dynamic(ts.take(i)));
            } else {
                assert(ts.take(i + 1)[j] == ts[i]);
            }
        }
    }
}

/// Validity of every element extends through a prefix step.
pub proof fn lemma_tys_valid_take(ts: Seq<AbiType>, i: int)
    requires
        0 <= i < ts.len(),
    ensures
        tys_valid(ts.take(i + 1)) == (tys_valid(ts.take(i)) && ty_valid(ts[i])),
{
    if tys_valid(ts.take(i + 1)) {
        assert forall|j: int| 0 <= j < i implies ty_valid(#[trigger] ts.take(i)[j]) by {
            assert(ty_valid(ts.take(i + 1)[j]));
        }
        assert(ty_valid(ts.take(i + 1)[i]));
    } else {
        if tys_valid(ts.take(i)) && ty_valid(ts[i]) {
            assert forall|j: int| 0 <= j < i + 1 implies ty_valid(#[trigger] ts.take(i + 1)[j]) by {
                if j < i {
                    assert(ty_valid(ts.take(i)[j]));
                } else {
                    assert(ts.take(i + 1)[j] == ts[i]);
                }
            }
        }
    }
}

/// Every valid type needs at least one word inline.
pub proof fn lemma_static_size_min(t: AbiType)
    requires
        ty_valid(t),
        !is_dynamic(t),
    ensures
        static_size(t) >= 32,
    decreases t, 0nat,
{
    match t {
        AbiType::FixedArray(e, n) => {
            lemma_static_size_min(*e);
            assert(n * static_size(*e) >= 1 * 32) by (nonlinear_arith)
                requires
                    n >= 1,
                    static_size(*e) >= 32,
            ;
        },
        AbiType::Tuple(ts) => {
            assert(ty_valid(ts[0]));
            lemma_head_size_min(ts[0]);
            assert(heads_len(ts@) == head_size(ts@[0]) + heads_len(ts@.drop_first()));
        },
        _ => {},
    }
}

/// Every head slot is at least one word.
pub proof fn lemma_head_size_min(t: AbiType)
    requires
        ty_valid(t),
    ensures
        head_size(t) >= 32,
    decreases t, 1nat,
{
    if !is_dynamic(t) {
        lemma_static_size_min(t);
    }
}

impl AbiType {
    /// Checked constructor for an unsigned integer type of `bits` bits.
    pub fn uint(bits: u32) -> (r: Result<Self, SchemaError>)
        ensures
            r matches Ok(t) ==> t == AbiType::Uint(bits) && ty_valid(t),
            r is Err <==> !(0 < bits <= 256 && bits % 8 == 0),
    {
        if 0 < bits && bits <= 256 && bits % 8 == 0 {
            Ok(AbiType::Uint(bits))
        } else {
            Err(SchemaError::IllegalBitWidth)
        }
    }

    /// Checked constructor for a signed integer type of `bits` bits.
    pub fn sint(bits: u32) -> (r: Result<Self, SchemaError>)
        ensures
            r matches Ok(t) ==> t == AbiType::Int(bits) && ty_valid(t),
            r is Err <==> !(0 < bits <= 256 && bits % 8 == 0),
    {
        if 0 < bits && bits <= 256 && bits % 8 == 0 {
            Ok(AbiType::Int(bits))
        } else {
            Err(SchemaError::IllegalBitWidth)
        }
    }

    /// Checked constructor for a fixed byte array of `n` bytes.
    pub fn fixed_bytes(n: usize) -> (r: Result<Self, SchemaError>)
        ensures
            r matches Ok(t) ==> t == AbiType::FixedBytes(n) && ty_valid(t),
            r is Err <==> !(1 <= n <= 32),
    {
        if 1 <= n && n <= 32 {
            Ok(AbiType::FixedBytes(n))
        } else {
            Err(SchemaError::IllegalByteLength)
        }
    }

    /// Checked constructor for a fixed-length array type.
    pub fn fixed_array(elem: AbiType, n: usize) -> (r: Result<Self, SchemaError>)
        ensures
            r matches Ok(t) ==> t == AbiType::FixedArray(Box::new(elem), n) && (ty_valid(elem)
                ==> ty_valid(t)),
            r is Err <==> n == 0,
    {
        if n >= 1 {
            Ok(AbiType::FixedArray(Box::new(elem), n))
        } else {
            Err(SchemaError::IllegalArrayLength)
        }
    }

    /// Whether a value of this type is referenced by offset from its head
    /// slot.
    pub fn dynamic(&self) -> (r: bool)
        ensures
            r == is_dynamic(*self),
        decreases ty_height(*self),
    {
        match self {
            AbiType::Bytes => true,
            AbiType::Str => true,
            AbiType::Array(_) => true,
            AbiType::FixedArray(e, _) => e.dynamic(),
            AbiType::Tuple(ts) => {
                let n = ts.len();
                let mut i: usize = 0;
                let mut found = false;
                while i < n
                    invariant
                        n == ts@.len(),
                        0 <= i <= n,
                        found == any_dynamic(ts@.take(i as int)),
                        tys_height(ts@) < ty_height(*self),
                    decreases n - i,
                {
                    proof {
                        lemma_tys_height_elem(ts@, i as int);
                    }
                    if ts[i].dynamic() {
                        found = true;
                    }
                    proof {
                        lemma_any_dynamic_take(ts@, i as int);
                    }
                    i = i + 1;
                }
                proof {
                    assert(ts@.take(n as int) =~= ts@);
                }
                found
            },
            _ => false,
        }
    }

    /// Whether the descriptor is well formed.
    pub fn valid(&self) -> (r: bool)
        ensures
            r == ty_valid(*self),
        decreases ty_height(*self),
    {
        match self {
            AbiType::Bool => true,
            AbiType::Uint(bits) => 0 < *bits && *bits <= 256 && *bits % 8 == 0,
            AbiType::Int(bits) => 0 < *bits && *bits <= 256 && *bits % 8 == 0,
            AbiType::Address => true,
            AbiType::FixedBytes(n) => 1 <= *n && *n <= 32,
            AbiType::Bytes => true,
            AbiType::Str => true,
            AbiType::FixedArray(e, n) => *n >= 1 && e.valid(),
            AbiType::Array(e) => e.valid(),
            AbiType::Tuple(ts) => {
                let n = ts.len();
                let mut i: usize = 0;
                let mut ok = true;
                while i < n
                    invariant
                        n == ts@.len(),
                        0 <= i <= n,
                        ok == tys_valid(ts@.take(i as int)),
                        tys_height(ts@) < ty_height(*self),
                    decreases n - i,
                {
                    proof {
                        lemma_tys_height_elem(ts@, i as int);
                    }
                    if !ts[i].valid() {
                        ok = false;
                    }
                    proof {
                        lemma_tys_valid_take(ts@, i as int);
                    }
                    i = i + 1;
                }
                proof {
                    assert(ts@.take(n as int) =~= ts@);
                }
                n >= 1 && ok
            },
        }
    }

    /// Inline size of a statically sized value, or `None` when the size
    /// does not fit in the address space (no buffer could hold one).
    pub fn inline_size(&self) -> (r: Option<usize>)
        ensures
            match r {
                Some(s) => s as nat == static_size(*self),
                None => static_size(*self) > usize::MAX,
            },
        decreases ty_height(*self), 1nat,
    {
        match self {
            AbiType::FixedArray(e, n) => {
                if *n == 0 {
                    proof {
                        assert(0 * static_size(**e) == 0) by (nonlinear_arith);
                    }
                    Some(0)
                } else {
                    match e.inline_size() {
                        Some(s) => {
                            let r = n.checked_mul(s);
                            proof {
                                assert((*n) * (s as nat) == (*n as nat) * static_size(**e));
                            }
                            r
                        },
                        None => {
                            proof {
                                assert((*n as nat) * static_size(**e) >= 1 * static_size(**e))
                                    by (nonlinear_arith)
                                    requires
                                        *n >= 1,
                                ;
                            }
                            None
                        },
                    }
                }
            },
            AbiType::Tuple(ts) => {
                let n = ts.len();
                let mut i: usize = 0;
                let mut acc: usize = 0;
                while i < n
                    invariant
                        n == ts@.len(),
                        0 <= i <= n,
                        acc as nat == heads_len(ts@.take(i as int)),
                        tys_height(ts@) < ty_height(*self),
                        static_size(*self) == heads_len(ts@),
                    decreases n - i,
                {
                    proof {
                        lemma_tys_height_elem(ts@, i as int);
                    }
                    let h = match ts[i].head_len() {
                        Some(h) => h,
                        None => {
                            proof {
                                lemma_heads_len_split(ts@, i as int);
                                lemma_heads_len_skip(ts@, i as int);
                            }
                            return None;
                        },
                    };
                    let next = match acc.checked_add(h) {
                        Some(next) => next,
                        None => {
                            proof {
                                lemma_heads_len_split(ts@, i as int);
                                lemma_heads_len_skip(ts@, i as int);
                                assert(ts@.take(i as int + 1).drop_last() =~= ts@.take(i as int));
                                assert(ts@.take(i as int + 1) =~= ts@.take(i as int).push(ts@[i as int]));
                                lemma_heads_len_split(ts@, i as int + 1);
                            }
                            return None;
                        },
                    };
                    proof {
                        lemma_heads_len_split(ts@, i as int);
                        lemma_heads_len_skip(ts@, i as int);
                        lemma_heads_len_split(ts@, i as int + 1);
                        assert(heads_len(ts@.skip(i as int + 1)) == heads_len(ts@) - heads_len(
                            ts@.take(i as int),
                        ) - head_size(ts@[i as int]));
                    }
                    acc = next;
                    i = i + 1;
                }
                proof {
                    assert(ts@.take(n as int) =~= ts@);
                }
                Some(acc)
            },
            _ => Some(32),
        }
    }

    /// Size of this type's head slot, or `None` when it cannot fit in the
    /// address space.
    pub fn head_len(&self) -> (r: Option<usize>)
        ensures
            match r {
                Some(s) => s as nat == head_size(*self),
                None => head_size(*self) > usize::MAX,
            },
        decreases ty_height(*self), 2nat,
    {
        if self.dynamic() {
            Some(32)
        } else {
            self.inline_size()
        }
    }
}

/// Total head-region size of a member list, or `None` when it exceeds
/// what one buffer can hold.
pub fn heads_total(ts: &Vec<AbiType>) -> (r: Option<usize>)
    ensures
        match r {
            Some(s) => s as nat == heads_len(ts@),
            None => heads_len(ts@) > usize::MAX,
        },
{
    let n = ts.len();
    let mut i: usize = 0;
    let mut acc: usize = 0;
    while i < n
        invariant
            n == ts@.len(),
            0 <= i <= n,
            acc as nat == heads_len(ts@.take(i as int)),
        decreases n - i,
    {
        let h = match ts[i].head_len() {
            Some(h) => h,
            None => {
                proof {
                    lemma_heads_len_split(ts@, i as int);
                    lemma_heads_len_skip(ts@, i as int);
                }
                return None;
            },
        };
        let next = match acc.checked_add(h) {
            Some(next) => next,
            None => {
                proof {
                    lemma_heads_len_split(ts@, i as int);
                    lemma_heads_len_skip(ts@, i as int);
                }
                return None;
            },
        };
        proof {
            lemma_heads_len_split(ts@, i as int);
            lemma_heads_len_skip(ts@, i as int);
            lemma_heads_len_split(ts@, i as int + 1);
            assert(heads_len(ts@.skip(i as int + 1)) == heads_len(ts@) - heads_len(
                ts@.take(i as int),
            ) - head_size(ts@[i as int]));
        }
        acc = next;
        i = i + 1;
    }
    proof {
        assert(ts@.take(n as int) =~= ts@);
    }
    Some(acc)
}

} // verus!
