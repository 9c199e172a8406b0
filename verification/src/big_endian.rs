//! Unsigned big-endian byte strings and the natural numbers they spell.

use vstd::arithmetic::power::{lemma_pow_increases, lemma_pow_multiplies, lemma_pow_positive, pow};
use vstd::arithmetic::power2::{lemma2_to64, lemma_pow2, pow2};
use vstd::prelude::*;

verus! {

/// The number that `bytes` spell when read most significant byte first.
/// Leading zero bytes do not change it, and the empty string spells zero.
pub open spec fn be_value(bytes: Seq<u8>) -> nat
    decreases bytes.len(),
{
    if bytes.len() == 0 {
        0
    } else {
        be_value(bytes.drop_last()) * 256 + bytes.last() as nat
    }
}

/// The shortest big-endian spelling of `v`: no leading zero byte, and the
/// single byte `0` for zero.
pub open spec fn be_bytes(v: nat) -> Seq<u8>
    decreases v,
{
    if v < 256 {
        seq![v as u8]
    } else {
        be_bytes(v / 256).push((v % 256) as u8)
    }
}

/// How many bytes the shortest spelling of `v` takes; at least one.
pub open spec fn byte_len(v: nat) -> nat {
    be_bytes(v).len()
}

/// Whether `bytes` is the shortest spelling of its own value.
pub open spec fn is_minimal(bytes: Seq<u8>) -> bool {
    bytes.len() == 1 || (bytes.len() > 1 && bytes[0] != 0)
}

/// Whether `v` takes exactly `bit_length` bits: the top bit is set and
/// none above it.
pub open spec fn has_bit_length(v: nat, bit_length: nat) -> bool {
    bit_length >= 1 && pow2((bit_length - 1) as nat) <= v < pow2(bit_length)
}

/// `count` zero bytes.
pub open spec fn zeros(count: nat) -> Seq<u8> {
    Seq::new(count, |i: int| 0u8)
}

/// `bytes` with zero bytes put in front until it is `len` long. A string
/// that is already that long, or longer, is left as it is.
pub open spec fn left_pad(bytes: Seq<u8>, len: nat) -> Seq<u8> {
    if bytes.len() >= len {
        bytes
    } else {
        zeros((len - bytes.len()) as nat) + bytes
    }
}

/// Reading back the shortest spelling of `v` gives `v`.
pub proof fn lemma_value_of_bytes(v: nat)
    ensures
        be_value(be_bytes(v)) == v,
    decreases v,
{
    if v < 256 {
        let s = seq![v as u8];
        assert(s.drop_last() =~= Seq::<u8>::empty());
        assert(be_value(s.drop_last()) == 0);
    } else {
        lemma_value_of_bytes(v / 256);
        let s = be_bytes(v / 256).push((v % 256) as u8);
        assert(s.drop_last() =~= be_bytes(v / 256));
    }
}

/// The shortest spelling has at least one byte, and starts with a zero byte
/// only when it spells zero.
pub proof fn lemma_bytes_minimal(v: nat)
    ensures
        is_minimal(be_bytes(v)),
        v > 0 ==> be_bytes(v)[0] != 0,
    decreases v,
{
    if v >= 256 {
        lemma_bytes_minimal(v / 256);
    }
}

/// A string of zero bytes spells zero.
pub proof fn lemma_value_of_zeros(count: nat)
    ensures
        be_value(zeros(count)) == 0,
    decreases count,
{
    if count > 0 {
        lemma_value_of_zeros((count - 1) as nat);
        assert(zeros(count).drop_last() =~= zeros((count - 1) as nat));
    }
}

/// Zero bytes in front of a string do not change the number it spells.
pub proof fn lemma_value_ignores_leading_zeros(count: nat, bytes: Seq<u8>)
    ensures
        be_value(zeros(count) + bytes) == be_value(bytes),
    decreases bytes.len(),
{
    if bytes.len() == 0 {
        assert(zeros(count) + bytes =~= zeros(count));
        lemma_value_of_zeros(count);
    } else {
        lemma_value_ignores_leading_zeros(count, bytes.drop_last());
        assert((zeros(count) + bytes).drop_last() =~= zeros(count) + bytes.drop_last());
    }
}

/// Left padding keeps the value.
pub proof fn lemma_left_pad_value(bytes: Seq<u8>, len: nat)
    ensures
        be_value(left_pad(bytes, len)) == be_value(bytes),
        left_pad(bytes, len).len() == if bytes.len() >= len { bytes.len() } else { len },
{
    if bytes.len() < len {
        lemma_value_ignores_leading_zeros((len - bytes.len()) as nat, bytes);
    }
}

/// A string without a needless leading zero is the shortest spelling of its
/// value: spelling and reading are inverse to each other.
pub proof fn lemma_minimal_is_bytes_of_value(bytes: Seq<u8>)
    requires
        is_minimal(bytes),
    ensures
        be_bytes(be_value(bytes)) == bytes,
    decreases bytes.len(),
{
    let head = bytes.drop_last();
    if bytes.len() == 1 {
        assert(be_value(head) == 0);
        assert(be_bytes(be_value(bytes)) =~= bytes);
    } else {
        assert(is_minimal(head));
        lemma_minimal_is_bytes_of_value(head);
        if be_value(head) == 0 {
            assert(be_bytes(0)[0] == 0);
            assert(false);
        }
        let v = be_value(bytes);
        assert(v == be_value(head) * 256 + bytes.last() as nat);
        assert(v / 256 == be_value(head));
        assert(v % 256 == bytes.last() as nat);
        assert(be_bytes(v) =~= bytes);
    }
}

/// A string of `k` bytes spells a number below `256^k`.
pub proof fn lemma_value_bound(bytes: Seq<u8>)
    ensures
        be_value(bytes) < pow(256, bytes.len()),
    decreases bytes.len(),
{
    reveal(pow);
    if bytes.len() > 0 {
        lemma_value_bound(bytes.drop_last());
        let k = (bytes.len() - 1) as nat;
        assert(pow(256, bytes.len()) == 256 * pow(256, k));
    }
}

/// The shortest spelling of `v` fits in `k >= 1` bytes exactly when
/// `v < 256^k`.
pub proof fn lemma_byte_len_bound(v: nat, k: nat)
    requires
        k >= 1,
    ensures
        byte_len(v) <= k <==> v < pow(256, k),
    decreases k,
{
    reveal(pow);
    assert(pow(256, 1) == 256) by {
        assert(pow(256, 0) == 1);
        assert(pow(256, 1) == 256 * pow(256, 0));
    }
    if k == 1 {
        if v >= 256 {
            lemma_bytes_minimal(v / 256);
        }
    } else {
        let j = (k - 1) as nat;
        assert(pow(256, k) == 256 * pow(256, j));
        lemma_pow_positive(256, j);
        if v < 256 {
            assert(pow(256, j) >= 1);
        } else {
            lemma_byte_len_bound(v / 256, j);
            assert(byte_len(v) == byte_len(v / 256) + 1);
            assert(v / 256 < pow(256, j) <==> v < 256 * pow(256, j));
        }
    }
}

/// A smaller number never needs more bytes.
pub proof fn lemma_byte_len_monotonic(a: nat, b: nat)
    requires
        a <= b,
    ensures
        byte_len(a) <= byte_len(b),
{
    let k = byte_len(b);
    lemma_bytes_minimal(b);
    lemma_byte_len_bound(b, k);
    lemma_byte_len_bound(a, k);
}

/// Spelling the value of a string anew and padding it back to the string's
/// length gives the string itself: leading zeros are all that spelling drops.
pub proof fn lemma_left_pad_restores(bytes: Seq<u8>)
    requires
        bytes.len() >= 1,
    ensures
        left_pad(be_bytes(be_value(bytes)), bytes.len()) == bytes,
        byte_len(be_value(bytes)) <= bytes.len(),
    decreases bytes.len(),
{
    if is_minimal(bytes) {
        lemma_minimal_is_bytes_of_value(bytes);
    } else {
        let tail = bytes.subrange(1, bytes.len() as int);
        assert(bytes =~= zeros(1) + tail);
        lemma_value_ignores_leading_zeros(1, tail);
        lemma_left_pad_restores(tail);
        let spelled = be_bytes(be_value(bytes));
        if spelled.len() >= tail.len() {
            assert(left_pad(spelled, bytes.len()) =~= zeros(1) + spelled);
        } else {
            let gap = (tail.len() - spelled.len()) as nat;
            assert(left_pad(spelled, bytes.len()) =~= zeros(1) + (zeros(gap) + spelled));
        }
    }
}

/// A number whose bit length is a multiple of eight takes an eighth of that
/// many bytes, no more and no fewer.
pub proof fn lemma_byte_len_of_bit_length(v: nat, bit_length: nat)
    requires
        has_bit_length(v, bit_length),
        bit_length % 8 == 0,
    ensures
        byte_len(v) == bit_length / 8,
{
    let bytes = bit_length / 8;
    let top = (bit_length - 1) as nat;
    assert(pow(256, bytes) == pow(2, 8 * bytes)) by {
        lemma2_to64();
        lemma_pow2(8);
        lemma_pow_multiplies(2, 8, bytes);
    }
    lemma_pow2(bit_length);
    lemma_pow2(top);
    lemma_byte_len_bound(v, bytes);
    if bytes > 1 {
        let below = (bytes - 1) as nat;
        assert(pow(256, below) == pow(2, 8 * below)) by {
            lemma2_to64();
            lemma_pow2(8);
            lemma_pow_multiplies(2, 8, below);
        }
        lemma_pow_increases(2, 8 * below, top);
        lemma_byte_len_bound(v, below);
    } else {
        lemma_bytes_minimal(v);
    }
}

/// Puts zero bytes in front of `bytes` until it is `len` long.
pub fn pad_left(bytes: Vec<u8>, len: usize) -> (padded: Vec<u8>)
    ensures
        padded@ == left_pad(bytes@, len as nat),
{
    let mut result = bytes;
    while result.len() < len
        invariant
            result@.len() >= bytes@.len(),
            result@.len() <= len || result@.len() == bytes@.len(),
            result@ == zeros((result@.len() - bytes@.len()) as nat) + bytes@,
        decreases len - result.len(),
    {
        let ghost before = result@;
        result.insert(0, 0);
        assert(result@ =~= zeros((result@.len() - bytes@.len()) as nat) + bytes@) by {
            assert(result@ == before.insert(0, 0u8));
        }
    }
    assert(zeros(0) + bytes@ =~= bytes@);
    result
}

} // verus!
