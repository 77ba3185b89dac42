//! The packed `i64` that a guest module's `process` export returns.
//!
//! A guest answers `process(ptr, len)` with one `i64` that carries the
//! address of its result in the high 32 bits and the result's length in the
//! low 32 bits: `(result_ptr << 32) | result_len`.
use vstd::prelude::*;

verus! {

/// The 64 bits that carry `ptr` above `len`.
pub open spec fn packed_bits(ptr: u32, len: u32) -> u64 {
    (ptr as u64 * 0x1_0000_0000u64 + len as u64) as u64
}

/// The address that a packed result carries in its high 32 bits.
pub open spec fn packed_ptr(packed: i64) -> u32 {
    ((packed as u64) >> 32u64) as u32
}

/// The length that a packed result carries in its low 32 bits.
pub open spec fn packed_len(packed: i64) -> u32 {
    ((packed as u64) & 0xFFFF_FFFFu64) as u32
}

/// Packs a guest's result address and length the way a guest module does
/// before it returns from `process`: `(ptr << 32) | len`, both widened to
/// `i64` with their sign. A negative length spills its sign into the high
/// half, which then holds all ones whatever the address; every length a
/// guest can report is non-negative.
pub fn pack_result(ptr: i32, len: i32) -> (packed: i64)
    ensures
        packed_len(packed) == len as u32,
        len >= 0 ==> packed as u64 == packed_bits(ptr as u32, len as u32),
        len >= 0 ==> packed_ptr(packed) == ptr as u32,
        len < 0 ==> packed == len as i64,
        len < 0 ==> packed_ptr(packed) == u32::MAX,
{
    let wide_ptr = ptr as i64;
    let wide_len = len as i64;
    let packed = (wide_ptr << 32u64) | wide_len;
    proof {
        assert(((((ptr as i64) << 32u64) | (len as i64)) as u64 & 0xFFFF_FFFFu64) as u32
            == len as u32) by (bit_vector);
        assert(len >= 0 ==> (((((ptr as i64) << 32u64) | (len as i64)) as u64) >> 32u64) as u32
            == ptr as u32) by (bit_vector);
        assert(len >= 0 ==> ((((ptr as i64) << 32u64) | (len as i64)) as u64) == (ptr as u32
            as u64 * 0x1_0000_0000u64 + len as u32 as u64) as u64) by (bit_vector);
        assert(len < 0 ==> (((ptr as i64) << 32u64) | (len as i64)) == len as i64) by (bit_vector);
        assert(len < 0 ==> (((len as i64) as u64) >> 32u64) as u32 == 0xFFFF_FFFFu32)
            by (bit_vector);
    }
    packed
}

/// Splits a packed result into the guest's result address and length, as
/// the host does after `process` returns.
pub fn unpack_result(packed: i64) -> (r: (u32, u32))
    ensures
        r.0 == packed_ptr(packed),
        r.1 == packed_len(packed),
{
    let bits = packed as u64;
    ((bits >> 32u64) as u32, (bits & 0xFFFF_FFFFu64) as u32)
}

/// Unpacking gives back the address and the length that were packed.
pub proof fn lemma_unpack_pack(ptr: u32, len: u32)
    ensures
        packed_ptr(packed_bits(ptr, len) as i64) == ptr,
        packed_len(packed_bits(ptr, len) as i64) == len,
{
    assert((((ptr as u64 * 0x1_0000_0000u64 + len as u64) as u64) as i64 as u64 >> 32u64) as u32
        == ptr) by (bit_vector);
    assert(((((ptr as u64 * 0x1_0000_0000u64 + len as u64) as u64) as i64 as u64)
        & 0xFFFF_FFFFu64) as u32 == len) by (bit_vector);
}

/// Packing the address and the length that a packed value carries gives back
/// that value: no bit of it is lost.
pub proof fn lemma_pack_unpack(packed: i64)
    ensures
        packed_bits(packed_ptr(packed), packed_len(packed)) == packed as u64,
{
    assert((((packed as u64 >> 32u64) as u32) as u64 * 0x1_0000_0000u64 + (((packed as u64)
        & 0xFFFF_FFFFu64) as u32) as u64) as u64 == packed as u64) by (bit_vector);
}

} // verus!
