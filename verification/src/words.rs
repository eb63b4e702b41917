//! 32-byte word arithmetic: big-endian byte strings, their numeric value,
//! and the zero padding used by the head/tail layout.

use vstd::arithmetic::div_mod::{lemma_fundamental_div_mod, lemma_mod_bound};
use vstd::prelude::*;

verus! {

/// Numeric value of a big-endian byte string.
pub open spec fn uint_val(b: Seq<u8>) -> nat
    decreases b.len(),
{
    if b.len() == 0 {
        0
    } else {
        (uint_val(b.drop_last()) * 256 + b.last()) as nat
    }
}

/// 256 to the power `k`: the number of values a `k`-byte string can take.
pub open spec fn pow256(k: nat) -> nat
    decreases k,
{
    if k == 0 {
        1
    } else {
        256 * pow256((k - 1) as nat)
    }
}

/// The `k`-byte big-endian representation of `n` (low bytes of `n` if it
/// does not fit).
pub open spec fn be_bytes(n: nat, k: nat) -> Seq<u8>
    decreases k,
{
    if k == 0 {
        Seq::empty()
    } else {
        be_bytes(n / 256, (k - 1) as nat).push((n % 256) as u8)
    }
}

/// A 32-byte word holding `n`.
pub open spec fn u256_word(n: nat) -> Seq<u8> {
    be_bytes(n, 32)
}

/// `k` zero bytes.
pub open spec fn zeroes(k: nat) -> Seq<u8> {
    Seq::new(k, |i: int| 0u8)
}

/// Reading back the big-endian representation of `n` yields `n`.
pub proof fn lemma_be_bytes_val(n: nat, k: nat)
    requires
        n < pow256(k),
    ensures
        be_bytes(n, k).len() == k,
        uint_val(be_bytes(n, k)) == n,
    decreases k,
{
    if k == 0 {
    } else {
        lemma_fundamental_div_mod(n as int, 256);
        lemma_mod_bound(n as int, 256);
        assert(n / 256 < pow256((k - 1) as nat)) by {
            if n / 256 >= pow256((k - 1) as nat) {
                assert(n >= 256 * (n / 256));
            }
        }
        lemma_be_bytes_val(n / 256, (k - 1) as nat);
        let rest = be_bytes(n / 256, (k - 1) as nat);
        let x = (n % 256) as u8;
        assert(rest.push(x).drop_last() =~= rest);
        assert(rest.push(x).last() == x);
    }
}

/// The length of `be_bytes` is always `k`.
pub proof fn lemma_be_bytes_len(n: nat, k: nat)
    ensures
        be_bytes(n, k).len() == k,
    decreases k,
{
    if k > 0 {
        lemma_be_bytes_len(n / 256, (k - 1) as nat);
    }
}

/// A byte string's value is bounded by the size of its alphabet.
pub proof fn lemma_uint_val_bound(b: Seq<u8>)
    ensures
        uint_val(b) < pow256(b.len()),
    decreases b.len(),
{
    if b.len() > 0 {
        lemma_uint_val_bound(b.drop_last());
    }
}

/// Left padding with zeroes to a full word, for right-aligned values.
pub open spec fn lpad32(b: Seq<u8>) -> Seq<u8> {
    if b.len() <= 32 {
        zeroes((32 - b.len()) as nat) + b
    } else {
        b
    }
}

/// Left padding with a sign-extension byte, for two's-complement values.
pub open spec fn spad32(b: Seq<u8>) -> Seq<u8> {
    if b.len() <= 32 {
        Seq::new(
            (32 - b.len()) as nat,
            |i: int| if b.len() > 0 && b[0] >= 128 {
                255u8
            } else {
                0u8
            },
        ) + b
    } else {
        b
    }
}

/// Right padding with zeroes to a full word, for left-aligned values.
pub open spec fn rpad32(b: Seq<u8>) -> Seq<u8> {
    if b.len() <= 32 {
        b + zeroes((32 - b.len()) as nat)
    } else {
        b
    }
}

/// Number of zero bytes that pad a tail of length `l` to a word multiple.
pub open spec fn pad_amount(l: nat) -> nat {
    ((32 - (l % 32)) % 32) as nat
}

/// A prefix of a byte string never has a larger value than the whole.
pub proof fn lemma_uint_val_take_mono(b: Seq<u8>, i: int)
    requires
        0 <= i <= b.len(),
    ensures
        uint_val(b.take(i)) <= uint_val(b),
    decreases b.len(),
{
    if i == b.len() {
        assert(b.take(i) =~= b);
    } else {
        assert(b.drop_last().take(i) =~= b.take(i));
        lemma_uint_val_take_mono(b.drop_last(), i);
    }
}

/// Read the numeric value of the 32-byte word at `pos`, or `None` when
/// it exceeds what a `usize` can address (no buffer can be that long).
pub fn read_word_val(block: &[u8], pos: usize) -> (r: Option<usize>)
    requires
        pos + 32 <= block@.len(),
    ensures
        match r {
            Some(n) => n as nat == uint_val(block@.subrange(pos as int, pos as int + 32)),
            None => uint_val(block@.subrange(pos as int, pos as int + 32)) > usize::MAX,
        },
{
    let ghost word = block@.subrange(pos as int, pos as int + 32);
    let blen: usize = block.len();
    let mut acc: u64 = 0;
    let mut j: usize = 0;
    while j < 32
        invariant
            0 <= j <= 32,
            pos + 32 <= blen,
            blen as nat == block@.len(),
            word == block@.subrange(pos as int, pos as int + 32),
            acc as nat == uint_val(word.take(j as int)),
        decreases 32 - j,
    {
        let byte = block[pos + j];
        proof {
            assert(word.take(j as int + 1).drop_last() =~= word.take(j as int));
            assert(word.take(j as int + 1).last() == word[j as int]);
            assert(word[j as int] == block@[pos + j]);
        }
        let shifted = match acc.checked_mul(256) {
            Some(s) => s,
            None => {
                proof {
                    lemma_uint_val_take_mono(word, j as int + 1);
                }
                return None;
            },
        };
        let next = match shifted.checked_add(byte as u64) {
            Some(nx) => nx,
            None => {
                proof {
                    lemma_uint_val_take_mono(word, j as int + 1);
                }
                return None;
            },
        };
        acc = next;
        j = j + 1;
    }
    proof {
        assert(word.take(32) =~= word);
    }
    if acc <= usize::MAX as u64 {
        Some(acc as usize)
    } else {
        None
    }
}


/// A byte string is the big-endian representation of its own value.
pub proof fn lemma_be_bytes_of_val(b: Seq<u8>)
    ensures
        be_bytes(uint_val(b), b.len()) == b,
    decreases b.len(),
{
    if b.len() > 0 {
        let v = uint_val(b);
        lemma_fundamental_div_mod(v as int, 256);
        lemma_mod_bound(v as int, 256);
        assert(v == uint_val(b.drop_last()) * 256 + b.last());
        assert(v % 256 == b.last() && v / 256 == uint_val(b.drop_last())) by {
            lemma_fundamental_div_mod((uint_val(b.drop_last()) * 256 + b.last()) as int, 256);
        }
        lemma_be_bytes_of_val(b.drop_last());
        assert(be_bytes(v, b.len()) =~= b);
    } else {
        assert(be_bytes(0, 0) =~= b);
    }
}

} // verus!
