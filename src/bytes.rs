//! Little-endian unsigned fields, read with zero padding past the end of a buffer.
use vstd::prelude::*;

verus! {

/// The byte at `i`, or zero where `i` lies outside the buffer.
pub open spec fn byte_at(s: Seq<u8>, i: int) -> nat {
    if 0 <= i < s.len() { s[i] as nat } else { 0 }
}

/// The little-endian unsigned value of the `n` bytes that start at `off`,
/// each byte outside the buffer counting as zero.
pub open spec fn le_value(s: Seq<u8>, off: int, n: nat) -> nat
    decreases n,
{
    if n == 0 { 0 } else { byte_at(s, off) + 256 * le_value(s, off + 1, (n - 1) as nat) }
}

/// Reading past the end of a buffer reads zeros: a field has the value it
/// would have in the buffer extended by `pad` zero bytes.
pub proof fn lemma_le_value_zero_padded(s: Seq<u8>, off: int, n: nat, pad: nat)
    ensures
        le_value(s, off, n) == le_value(s + Seq::new(pad, |i: int| 0u8), off, n),
    decreases n,
{
    if n > 0 {
        lemma_le_value_zero_padded(s, off + 1, (n - 1) as nat, pad);
    }
}

/// `256` to the power `n`.
pub open spec fn radix(n: nat) -> nat
    decreases n,
{
    if n == 0 { 1 } else { 256 * radix((n - 1) as nat) }
}

/// A field of `n` bytes is below `256^n`.
pub proof fn lemma_le_value_bound(s: Seq<u8>, off: int, n: nat)
    ensures
        le_value(s, off, n) < radix(n),
    decreases n,
{
    if n > 0 {
        lemma_le_value_bound(s, off + 1, (n - 1) as nat);
        let rest = le_value(s, off + 1, (n - 1) as nat);
        let b = byte_at(s, off);
        let r = radix((n - 1) as nat);
        assert(b + 256 * rest < 256 * r) by (nonlinear_arith)
            requires b < 256, rest < r;
    }
}

/// A field of `n` bytes read as a 32-bit value: the low 32 bits of its
/// little-endian value, which are its first four bytes.
pub open spec fn field_u32(s: Seq<u8>, off: int, n: nat) -> nat {
    le_value(s, off, if n < 4 { n } else { 4 })
}

/// A field read as a 32-bit value fits in 32 bits.
pub proof fn lemma_field_u32_bound(s: Seq<u8>, off: int, n: nat)
    ensures
        field_u32(s, off, n) <= u32::MAX,
{
    let m: nat = if n < 4 { n } else { 4 };
    lemma_le_value_bound(s, off, m);
    assert(radix(m) <= radix(4)) by {
        reveal_with_fuel(radix, 5);
    }
    assert(radix(4) == 0x1_0000_0000) by {
        reveal_with_fuel(radix, 5);
    }
}

/// Reads the `length`-byte little-endian field at `offset`, `length` at most
/// eight. Bytes past the end of `script` count as zero: the read never fails.
pub fn read_le_u64(script: &[u8], offset: u64, length: u64) -> (r: u64)
    requires
        length <= 8,
    ensures
        r as nat == le_value(script@, offset as int, length as nat),
{
    let mut k: u64 = length;
    let mut v: u64 = 0;
    while k > 0
        invariant
            k <= length <= 8,
            v as nat == le_value(script@, offset + k, (length - k) as nat),
        decreases k,
    {
        proof {
            lemma_le_value_bound(script@, offset + k, (length - k) as nat);
            assert(radix((length - k) as nat) <= radix(7)) by {
                reveal_with_fuel(radix, 8);
            }
            assert(radix(7) == 0x100_0000_0000_0000) by {
                reveal_with_fuel(radix, 8);
            }
        }
        k = k - 1;
        let pos: u128 = offset as u128 + k as u128;
        let b: u8 = if pos < script.len() as u128 {
            script[pos as usize]
        } else {
            0
        };
        assert(b as nat == byte_at(script@, offset + k));
        v = b as u64 + 256 * v;
    }
    v
}

/// Reads the `length`-byte little-endian field at `offset` and keeps its low
/// 32 bits. Bytes past the end of `script` count as zero: the read never fails.
pub fn read_le_u32(script: &[u8], offset: u64, length: u64) -> (r: u32)
    ensures
        r as nat == field_u32(script@, offset as int, length as nat),
{
    let n: u64 = if length < 4 { length } else { 4 };
    let v: u64 = read_le_u64(script, offset, n);
    proof {
        lemma_field_u32_bound(script@, offset as int, length as nat);
    }
    v as u32
}

} // verus!
