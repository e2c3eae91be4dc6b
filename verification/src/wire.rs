//! Little-endian integers as they travel in frames.

use vstd::prelude::*;

verus! {

/// The `len` low bytes of `n`, lowest first.
pub open spec fn le_bytes(n: nat, len: nat) -> Seq<u8>
    decreases len,
{
    if len == 0 {
        Seq::empty()
    } else {
        seq![(n % 256) as u8] + le_bytes(n / 256, (len - 1) as nat)
    }
}

/// The number whose bytes, lowest first, are `bytes`.
pub open spec fn le_value(bytes: Seq<u8>) -> nat
    decreases bytes.len(),
{
    if bytes.len() == 0 {
        0
    } else {
        bytes[0] as nat + 256 * le_value(bytes.drop_first())
    }
}

/// Whether `n` can be written in `len` bytes.
pub open spec fn fits(n: nat, len: nat) -> bool
    decreases len,
{
    if len == 0 {
        n == 0
    } else {
        fits(n / 256, (len - 1) as nat)
    }
}

/// Writing a number takes as many bytes as were asked for.
pub proof fn lemma_le_bytes_len(n: nat, len: nat)
    ensures
        le_bytes(n, len).len() == len,
    decreases len,
{
    if len > 0 {
        lemma_le_bytes_len(n / 256, (len - 1) as nat);
    }
}

/// Reading bytes and writing the number read gives the bytes back.
pub proof fn lemma_le_bytes_of_value(bytes: Seq<u8>)
    ensures
        le_bytes(le_value(bytes), bytes.len()) == bytes,
        fits(le_value(bytes), bytes.len()),
    decreases bytes.len(),
{
    if bytes.len() > 0 {
        let rest = bytes.drop_first();
        lemma_le_bytes_of_value(rest);
        assert(le_value(bytes) / 256 == le_value(rest));
        assert(le_value(bytes) % 256 == bytes[0]);
        assert(le_bytes(le_value(bytes), bytes.len()) =~= bytes);
    }
}

/// Writing a number that fits and reading it gives the number back.
pub proof fn lemma_le_value_of_bytes(n: nat, len: nat)
    requires
        fits(n, len),
    ensures
        le_value(le_bytes(n, len)) == n,
    decreases len,
{
    if len > 0 {
        lemma_le_value_of_bytes(n / 256, (len - 1) as nat);
        let bytes = le_bytes(n, len);
        assert(bytes.drop_first() =~= le_bytes(n / 256, (len - 1) as nat));
    }
}

/// Every 64-bit number fits in eight bytes, every 32-bit number in four.
pub proof fn lemma_fits_machine_words(a: u64, b: u32)
    ensures
        fits(a as nat, 8),
        fits(b as nat, 4),
{
    reveal_with_fuel(fits, 9);
}

/// Appends the eight bytes of `n`, lowest first.
pub fn put_u64_le(out: &mut Vec<u8>, n: u64)
    ensures
        final(out)@ == old(out)@ + le_bytes(n as nat, 8),
{
    let n0: u64 = n;
    let n1: u64 = n0 / 256;
    let n2: u64 = n1 / 256;
    let n3: u64 = n2 / 256;
    let n4: u64 = n3 / 256;
    let n5: u64 = n4 / 256;
    let n6: u64 = n5 / 256;
    let n7: u64 = n6 / 256;
    out.push((n0 % 256) as u8);
    out.push((n1 % 256) as u8);
    out.push((n2 % 256) as u8);
    out.push((n3 % 256) as u8);
    out.push((n4 % 256) as u8);
    out.push((n5 % 256) as u8);
    out.push((n6 % 256) as u8);
    out.push((n7 % 256) as u8);
    proof {
        reveal_with_fuel(le_bytes, 9);
        assert(out@ =~= old(out)@ + le_bytes(n as nat, 8));
    }
}

/// Reads the 64-bit number written in the eight bytes from `at` on.
pub fn get_u64_le(bytes: &[u8], at: usize) -> (n: u64)
    requires
        at + 8 <= bytes@.len(),
    ensures
        n == le_value(bytes@.subrange(at as int, at + 8)),
{
    assert(bytes@.len() == bytes.len());
    let v7: u64 = bytes[at + 7] as u64;
    let v6: u64 = bytes[at + 6] as u64 + 256 * v7;
    let v5: u64 = bytes[at + 5] as u64 + 256 * v6;
    let v4: u64 = bytes[at + 4] as u64 + 256 * v5;
    let v3: u64 = bytes[at + 3] as u64 + 256 * v4;
    let v2: u64 = bytes[at + 2] as u64 + 256 * v3;
    let v1: u64 = bytes[at + 1] as u64 + 256 * v2;
    let v0: u64 = bytes[at] as u64 + 256 * v1;
    proof {
        let part = bytes@.subrange(at as int, at + 8);
        reveal_with_fuel(le_value, 9);
        assert(part[0] == bytes@[at as int]);
        assert(part.drop_first()[0] == bytes@[at + 1]);
        assert(part.drop_first().drop_first()[0] == bytes@[at + 2]);
        assert(part.drop_first().drop_first().drop_first()[0] == bytes@[at + 3]);
        assert(part.drop_first().drop_first().drop_first().drop_first()[0] == bytes@[at + 4]);
        assert(part.drop_first().drop_first().drop_first().drop_first().drop_first()[0]
            == bytes@[at + 5]);
        assert(part.drop_first().drop_first().drop_first().drop_first().drop_first().drop_first()[0]
            == bytes@[at + 6]);
        assert(part.drop_first().drop_first().drop_first().drop_first().drop_first().drop_first().drop_first()[0]
            == bytes@[at + 7]);
    }
    v0
}

/// Reads the 32-bit number written in the four bytes from `at` on.
pub fn get_u32_le(bytes: &[u8], at: usize) -> (n: u32)
    requires
        at + 4 <= bytes@.len(),
    ensures
        n == le_value(bytes@.subrange(at as int, at + 4)),
{
    assert(bytes@.len() == bytes.len());
    let v3: u32 = bytes[at + 3] as u32;
    let v2: u32 = bytes[at + 2] as u32 + 256 * v3;
    let v1: u32 = bytes[at + 1] as u32 + 256 * v2;
    let v0: u32 = bytes[at] as u32 + 256 * v1;
    proof {
        let part = bytes@.subrange(at as int, at + 4);
        reveal_with_fuel(le_value, 5);
        assert(part[0] == bytes@[at as int]);
        assert(part.drop_first()[0] == bytes@[at + 1]);
        assert(part.drop_first().drop_first()[0] == bytes@[at + 2]);
        assert(part.drop_first().drop_first().drop_first()[0] == bytes@[at + 3]);
    }
    v0
}

} // verus!
