//! Fixed binary form of a 64-bit message identifier.
//!
//! The durable correlation store keeps each message identifier as exactly
//! eight little-endian bytes.  `encode_id` and `decode_id` realise the
//! form; the lemmas make it lossless.

use vstd::prelude::*;

verus! {

/// The little-endian byte string of a value, `n` bytes long.
pub open spec fn le_bytes(v: nat, n: nat) -> Seq<u8>
    decreases n,
{
    if n == 0 {
        Seq::empty()
    } else {
        seq![(v % 256) as u8] + le_bytes(v / 256, (n - 1) as nat)
    }
}

/// The value of a little-endian byte string.
pub open spec fn le_val(s: Seq<u8>) -> nat
    decreases s.len(),
{
    if s.len() == 0 {
        0
    } else {
        (s[0] + 256 * le_val(s.drop_first())) as nat
    }
}

/// The unsigned 64-bit image of a signed identifier (two's complement).
pub open spec fn id_unsigned(id: i64) -> nat {
    if id >= 0 {
        id as nat
    } else {
        (id + 0x1_0000_0000_0000_0000) as nat
    }
}

/// The signed identifier held by an unsigned 64-bit image.
pub open spec fn id_signed(v: nat) -> i64 {
    if v < 0x8000_0000_0000_0000 {
        v as i64
    } else {
        (v - 0x1_0000_0000_0000_0000) as i64
    }
}

/// The message identifier held by an eight-byte value cell, as a signed
/// 64-bit quantity.
pub open spec fn id_of_bytes(s: Seq<u8>) -> i64 {
    id_signed(le_val(s))
}

/// The eight-byte value cell for a message identifier.
pub open spec fn bytes_of_id(id: i64) -> Seq<u8> {
    le_bytes(id_unsigned(id), 8)
}

/// The little-endian form has exactly the requested length.
pub proof fn lemma_le_bytes_len(v: nat, n: nat)
    ensures
        le_bytes(v, n).len() == n,
    decreases n,
{
    if n > 0 {
        lemma_le_bytes_len(v / 256, (n - 1) as nat);
    }
}

/// Reading the little-endian form back gives the value, as long as the
/// value fits in the requested width.
pub proof fn lemma_le_bytes_val(v: nat, n: nat)
    requires
        v < pow256(n),
    ensures
        le_val(le_bytes(v, n)) == v,
    decreases n,
{
    if n == 0 {
    } else {
        let s = seq![(v % 256) as u8] + le_bytes(v / 256, (n - 1) as nat);
        assert(s.drop_first() =~= le_bytes(v / 256, (n - 1) as nat));
        assert(v / 256 < pow256((n - 1) as nat)) by {
            lemma_pow256_unfold(n);
        }
        lemma_le_bytes_val(v / 256, (n - 1) as nat);
        vstd::arithmetic::div_mod::lemma_fundamental_div_mod(v as int, 256);
    }
}

/// A byte string's value is below 256 to the power of its length.
pub proof fn lemma_le_val_bound(s: Seq<u8>)
    ensures
        le_val(s) < pow256(s.len()),
    decreases s.len(),
{
    if s.len() == 0 {
    } else {
        lemma_le_val_bound(s.drop_first());
        lemma_pow256_unfold(s.len());
        assert(s[0] + 256 * le_val(s.drop_first()) < 256 * pow256((s.len() - 1) as nat));
    }
}

/// 256 to the power of `n`.
pub open spec fn pow256(n: nat) -> nat
    decreases n,
{
    if n == 0 {
        1
    } else {
        256 * pow256((n - 1) as nat)
    }
}

proof fn lemma_pow256_unfold(n: nat)
    requires
        n > 0,
    ensures
        pow256(n) == 256 * pow256((n - 1) as nat),
{
}

/// `pow256(8)` covers every 64-bit value.
pub proof fn lemma_pow256_8()
    ensures
        pow256(8) == 0x1_0000_0000_0000_0000,
{
    assert(pow256(0) == 1);
    assert(pow256(1) == 256);
    assert(pow256(2) == 0x1_0000);
    assert(pow256(3) == 0x100_0000);
    assert(pow256(4) == 0x1_0000_0000);
    assert(pow256(5) == 0x100_0000_0000);
    assert(pow256(6) == 0x1_0000_0000_0000);
    assert(pow256(7) == 0x100_0000_0000_0000);
    assert(pow256(8) == 0x1_0000_0000_0000_0000);
}

/// Turns a message identifier into its eight little-endian bytes.
pub fn encode_id(id: i64) -> (r: Vec<u8>)
    ensures
        r@ == bytes_of_id(id),
        r@.len() == 8,
{
    let mut out: Vec<u8> = Vec::new();
    let mut v: u64 = if id >= 0 {
        id as u64
    } else {
        ((id + 9223372036854775807i64) + 1) as u64 + 9223372036854775808u64
    };
    proof {
        assert(v as nat == id_unsigned(id));
    }
    let ghost v0: nat = v as nat;
    let mut k: usize = 0;
    while k < 8
        invariant
            0 <= k <= 8,
            out@.len() == k,
            le_bytes(v0, 8) =~= out@ + le_bytes(v as nat, (8 - k) as nat),
        decreases 8 - k,
    {
        let b: u8 = (v % 256) as u8;
        proof {
            assert(le_bytes(v as nat, (8 - k) as nat) == seq![(v as nat % 256) as u8]
                + le_bytes(v as nat / 256, (8 - k - 1) as nat));
            assert((out@ + le_bytes(v as nat, (8 - k) as nat)) =~= (out@.push(b) + le_bytes(
                v as nat / 256,
                (8 - k - 1) as nat,
            )));
        }
        out.push(b);
        v = v / 256;
        k = k + 1;
    }
    proof {
        assert(le_bytes(v as nat, 0) =~= Seq::<u8>::empty());
        assert(out@ =~= le_bytes(v0, 8));
        lemma_le_bytes_len(v0, 8);
    }
    out
}

/// Reads a message identifier back out of its eight little-endian bytes.
pub fn decode_id(bytes: &Vec<u8>) -> (r: i64)
    requires
        bytes@.len() == 8,
    ensures
        r == id_of_bytes(bytes@),
{
    let mut val: u64 = 0;
    let mut k: usize = 8;
    while k > 0
        invariant
            0 <= k <= 8,
            bytes@.len() == 8,
            val == le_val(bytes@.skip(k as int)),
            le_val(bytes@.skip(k as int)) < pow256((8 - k) as nat),
        decreases k,
    {
        proof {
            lemma_le_val_bound(bytes@.skip(k - 1));
            lemma_pow256_8();
            assert(pow256((8 - (k - 1)) as nat) <= pow256(8)) by {
                lemma_pow256_mono((8 - (k - 1)) as nat, 8);
            }
            assert(bytes@.skip(k - 1).drop_first() =~= bytes@.skip(k as int));
            assert(le_val(bytes@.skip(k - 1)) == bytes@[k - 1] + 256 * le_val(
                bytes@.skip(k as int),
            ));
        }
        val = val * 256 + (bytes[k - 1] as u64);
        k = k - 1;
    }
    proof {
        assert(bytes@.skip(0) =~= bytes@);
    }
    if val < 9223372036854775808u64 {
        val as i64
    } else {
        let t: u64 = val - 9223372036854775808u64;
        ((t as i64) - 9223372036854775807i64) - 1
    }
}

proof fn lemma_pow256_mono(a: nat, b: nat)
    requires
        a <= b,
    ensures
        pow256(a) <= pow256(b),
    decreases b,
{
    if a < b {
        lemma_pow256_mono(a, (b - 1) as nat);
        assert(pow256(b) == 256 * pow256((b - 1) as nat));
    }
}

/// Encoding then decoding hands the identifier back.
pub proof fn lemma_id_round_trip(id: i64)
    ensures
        id_of_bytes(bytes_of_id(id)) == id,
{
    lemma_pow256_8();
    lemma_le_bytes_val(id_unsigned(id), 8);
}

} // verus!
