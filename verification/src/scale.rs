use vstd::prelude::*;

use crate::error::QueryError;

verus! {

/// The integer encoded little-endian by `bytes` (the fixed-width integer
/// encoding the chain uses for storage values).
pub open spec fn le_value(bytes: Seq<u8>) -> int
    decreases bytes.len(),
{
    if bytes.len() == 0 {
        0
    } else {
        bytes[0] + 256 * le_value(bytes.drop_first())
    }
}

/// 256 to the power `n`; the exclusive upper bound of an `n`-byte
/// little-endian value.
pub open spec fn pow256(n: nat) -> int
    decreases n,
{
    if n == 0 {
        1
    } else {
        256 * pow256((n - 1) as nat)
    }
}

proof fn lemma_pow256_8()
    ensures
        pow256(8) == 0x1_0000_0000_0000_0000,
{
    assert(pow256(0) == 1);
    assert(pow256(1) == 256);
    assert(pow256(2) == 0x1_0000);
    assert(pow256(3) == 0x100_0000);
    assert(pow256(4) == 0x1_0000_0000);
    assert(pow256(5) == 0x100_0000_0000);
    assert(pow256(6) == 0x1_0000_0000_0000);
    assert(pow256(7) == 0x100_0000_0000_0000);
}

proof fn lemma_pow256_pos(n: nat)
    ensures
        pow256(n) >= 1,
    decreases n,
{
    if n > 0 {
        lemma_pow256_pos((n - 1) as nat);
    }
}

proof fn lemma_pow256_mono(a: nat, b: nat)
    requires
        a <= b,
    ensures
        pow256(a) <= pow256(b),
    decreases b,
{
    if a < b {
        lemma_pow256_mono(a, (b - 1) as nat);
        lemma_pow256_pos((b - 1) as nat);
    }
}

/// A little-endian value is bounded by 256 to the number of its bytes.
proof fn lemma_le_value_bound(bytes: Seq<u8>)
    ensures
        0 <= le_value(bytes) < pow256(bytes.len()),
    decreases bytes.len(),
{
    if bytes.len() > 0 {
        lemma_le_value_bound(bytes.drop_first());
    }
}

/// Decode the storage-format version: an unsigned 16-bit little-endian
/// integer read from the first two bytes of the slot's contents.  Trailing
/// bytes are tolerated; fewer than two bytes is a decode failure.
pub fn decode_storage_version(bytes: &Vec<u8>) -> (r: Result<u16, QueryError>)
    ensures
        match r {
            Ok(v) => bytes@.len() >= 2 && v == le_value(bytes@.take(2)),
            Err(e) => bytes@.len() < 2 && e == QueryError::DecodeFailure,
        },
{
    if bytes.len() < 2 {
        Err(QueryError::DecodeFailure)
    } else {
        let v: u16 = bytes[0] as u16 + 256 * (bytes[1] as u16);
        proof {
            let s = bytes@.take(2);
            let s1 = s.drop_first();
            assert(s1.drop_first() =~= Seq::<u8>::empty());
            assert(le_value(s1.drop_first()) == 0);
            assert(le_value(s1) == bytes@[1]);
            assert(le_value(s) == bytes@[0] + 256 * bytes@[1]);
        }
        Ok(v)
    }
}

/// Decode a timestamp in milliseconds: an unsigned 64-bit little-endian
/// integer read from the first eight bytes of the slot's contents.
pub fn decode_timestamp_millis(bytes: &Vec<u8>) -> (r: Result<u64, QueryError>)
    ensures
        match r {
            Ok(v) => bytes@.len() >= 8 && v == le_value(bytes@.take(8)),
            Err(e) => bytes@.len() < 8 && e == QueryError::DecodeFailure,
        },
{
    if bytes.len() < 8 {
        return Err(QueryError::DecodeFailure);
    }
    let mut v: u64 = 0;
    let mut i: usize = 8;
    proof {
        assert(bytes@.take(8).subrange(8, 8) =~= Seq::<u8>::empty());
    }
    while i > 0
        invariant
            0 <= i <= 8,
            bytes@.len() >= 8,
            v == le_value(bytes@.take(8).subrange(i as int, 8)),
            v < pow256((8 - i) as nat),
        decreases i,
    {
        i = i - 1;
        let b = bytes[i];
        proof {
            let s = bytes@.take(8).subrange(i as int, 8);
            assert(s.drop_first() =~= bytes@.take(8).subrange(i + 1, 8));
            assert(s[0] == bytes@[i as int]);
            assert(le_value(s) == bytes@[i as int] + 256 * le_value(s.drop_first()));
            lemma_pow256_mono((8 - i) as nat, 8);
            lemma_pow256_8();
            assert(pow256((8 - i) as nat) == 256 * pow256((7 - i) as nat));
        }
        v = v * 256 + b as u64;
    }
    proof {
        assert(bytes@.take(8).subrange(0, 8) =~= bytes@.take(8));
    }
    Ok(v)
}

} // verus!
