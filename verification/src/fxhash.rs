use vstd::prelude::*;
use std::hash::{Hash, Hasher};

verus! {

/// Multiplier used by the 64-bit `FxHasher` of `rustc_hash`.
pub open spec fn fx_multiplier() -> int {
    0xf1357aea2e62a9c5
}

/// 2^64, the modulus of the wrapping arithmetic of a 64-bit hasher.
pub open spec fn two_pow_64() -> int {
    0x1_0000_0000_0000_0000
}

/// One `write_u64` step of a 64-bit `FxHasher`: `(hash + i) * K`, wrapping.
pub open spec fn fx_add_to_hash(hash: int, i: int) -> int {
    (((hash + i) % two_pow_64()) * fx_multiplier()) % two_pow_64()
}

/// `finish` of a 64-bit `FxHasher`: the state rotated left by 26 bits.
pub open spec fn fx_finish(hash: int) -> int {
    (hash * 0x400_0000) % two_pow_64() + hash / 0x40_0000_0000
}

/// What a fresh 64-bit `FxHasher` returns after hashing `a` and then `b`
/// (both as `u64`).
pub open spec fn fx_hash_two_u64(a: u64, b: u64) -> int {
    fx_finish(fx_add_to_hash(fx_add_to_hash(0, a as int), b as int))
}

/// Multiplier used by the 32-bit `FxHasher` of `rustc_hash`.
pub open spec fn fx_multiplier_32() -> int {
    0x93d765dd
}

/// 2^32, the modulus of the wrapping arithmetic of a 32-bit hasher.
pub open spec fn two_pow_32() -> int {
    0x1_0000_0000
}

/// One `add_to_hash` step of a 32-bit `FxHasher`: `(hash + i) * K`, wrapping.
pub open spec fn fx_add_to_hash_32(hash: int, i: int) -> int {
    (((hash + i) % two_pow_32()) * fx_multiplier_32()) % two_pow_32()
}

/// `finish` of a 32-bit `FxHasher`: the state rotated left by 15 bits.
pub open spec fn fx_finish_32(hash: int) -> int {
    (hash * 0x8000) % two_pow_32() + hash / 0x2_0000
}

/// `write_u64` of a 32-bit `FxHasher`: the low half of `i`, then the high half.
pub open spec fn fx_write_u64_32(hash: int, i: u64) -> int {
    fx_add_to_hash_32(fx_add_to_hash_32(hash, i as int % two_pow_32()), i as int / two_pow_32())
}

/// What a fresh 32-bit `FxHasher` returns after hashing `a` and then `b`.
pub open spec fn fx_hash_two_u32(a: u64, b: u64) -> int {
    fx_finish_32(fx_write_u64_32(fx_write_u64_32(0, a), b))
}

/// What a fresh `FxHasher` returns after hashing `a` and then `b`, on the
/// target's pointer width.
pub open spec fn fx_hash_two_spec(a: u64, b: u64) -> int {
    if usize::BITS == 64 {
        fx_hash_two_u64(a, b)
    } else {
        fx_hash_two_u32(a, b)
    }
}

/// What a fresh `FxHasher` returns after hashing the `u64` `a` and then the
/// `u32` `b`, on the target's pointer width (`write_u32` adds `b` in one step).
pub open spec fn fx_hash_u64_u32_spec(a: u64, b: u32) -> int {
    if usize::BITS == 64 {
        fx_finish(fx_add_to_hash(fx_add_to_hash(0, a as int), b as int))
    } else {
        fx_finish_32(fx_add_to_hash_32(fx_write_u64_32(0, a), b as int))
    }
}

/// Hashes `a` and then `b` with a default `rustc_hash::FxHasher` and returns
/// `finish()`.
///
/// Trusted: the contract restates the hasher's source for both pointer
/// widths: `add_to_hash` is a wrapping add followed by a wrapping multiply by
/// `K`; on a 32-bit target `write_u64` adds the low and then the high half;
/// `finish` rotates the state left by 26 bits (64-bit) or 15 bits (32-bit).
#[verifier::external_body]
pub(crate) fn fx_hash_two(a: u64, b: u64) -> (r: u64)
    ensures
        r as int == fx_hash_two_spec(a, b),
{
    let mut hasher = rustc_hash::FxHasher::default();
    a.hash(&mut hasher);
    b.hash(&mut hasher);
    hasher.finish()
}

/// Hashes the `u64` `a` and then the `u32` `b` with a default
/// `rustc_hash::FxHasher` and returns `finish()`.
///
/// Trusted: as for [`fx_hash_two`], the contract restates the hasher's source;
/// `write_u32` adds its argument to the state in one `add_to_hash` step.
#[verifier::external_body]
pub(crate) fn fx_hash_u64_u32(a: u64, b: u32) -> (r: u64)
    ensures
        r as int == fx_hash_u64_u32_spec(a, b),
{
    let mut hasher = rustc_hash::FxHasher::default();
    a.hash(&mut hasher);
    b.hash(&mut hasher);
    hasher.finish()
}

} // verus!
