//! The host ABI's memory regions: a region of guest memory travels as one
//! `i64`, its address in the high 32 bits and its length in the low 32 bits.

use vstd::prelude::*;

verus! {

/// Resets the guest allocator. The allocator is the system one, so there is
/// nothing to reset.
pub fn reset() {
}

/// The `i64` that carries a region: the address's 32 bits above the
/// length's 32 bits.
pub open spec fn packed(ptr: i32, len: i32) -> i64 {
    ((((ptr as u32) as u64) << 32u64) | ((len as u32) as u64)) as i64
}

/// Packs a region's address and length into one `i64`, as the host
/// functions take and return them.
pub fn pack(ptr: i32, len: i32) -> (res: i64)
    ensures
        res == packed(ptr, len),
        ((res as u64) >> 32u64) as u32 == ptr as u32,
        ((res as u64) & 0xFFFF_FFFFu64) as u32 == len as u32,
{
    let res: i64 = ((((ptr as u32) as u64) << 32u64) | ((len as u32) as u64)) as i64;
    assert(((res as u64) >> 32u64) as u32 == ptr as u32 && ((res as u64) & 0xFFFF_FFFFu64) as u32
        == len as u32) by (bit_vector)
        requires
            res == ((((ptr as u32) as u64) << 32u64) | ((len as u32) as u64)) as i64,
    ;
    res
}

/// The address and length of a region that the guest handed over, read as
/// the signed numbers that the guest's allocator takes.
pub fn unpack(packed: i64) -> (res: (i32, i32))
    ensures
        res.0 == (((packed as u64) >> 32u64) as u32) as i32,
        res.1 == (((packed as u64) & 0xFFFF_FFFFu64) as u32) as i32,
{
    let p: i32 = (packed >> 32u64) as i32;
    let l: i32 = (packed & 0xFFFF_FFFFi64) as i32;
    assert(p == (((packed as u64) >> 32u64) as u32) as i32 && l == (((packed as u64)
        & 0xFFFF_FFFFu64) as u32) as i32) by (bit_vector)
        requires
            p == (packed >> 32u64) as i32,
            l == (packed & 0xFFFF_FFFFi64) as i32,
    ;
    (p, l)
}

/// The region of a host reply: its address and length as unsigned numbers;
/// `None` where the host replied with no bytes.
pub fn reply_region(packed: i64) -> (res: Option<(u32, u32)>)
    ensures
        ((packed as u64) & 0xFFFF_FFFFu64) as u32 == 0 ==> res is None,
        ((packed as u64) & 0xFFFF_FFFFu64) as u32 != 0 ==> res == Some(
            (((packed as u64) >> 32u64) as u32, ((packed as u64) & 0xFFFF_FFFFu64) as u32),
        ),
{
    let ptr: u32 = (packed >> 32u64) as u32;
    let len: u32 = (packed & 0xFFFF_FFFFi64) as u32;
    assert(ptr == ((packed as u64) >> 32u64) as u32 && len == ((packed as u64) & 0xFFFF_FFFFu64)
        as u32) by (bit_vector)
        requires
            ptr == (packed >> 32u64) as u32,
            len == (packed & 0xFFFF_FFFFi64) as u32,
    ;
    if len == 0 {
        None
    } else {
        Some((ptr, len))
    }
}

/// Unpacking a packed region gives back its address and length.
pub proof fn lemma_unpack_pack(ptr: i32, len: i32)
    ensures
        ((packed(ptr, len) as u64) >> 32u64) as u32 == ptr as u32,
        ((packed(ptr, len) as u64) & 0xFFFF_FFFFu64) as u32 == len as u32,
        (((packed(ptr, len) as u64) >> 32u64) as u32) as i32 == ptr,
        (((packed(ptr, len) as u64) & 0xFFFF_FFFFu64) as u32) as i32 == len,
{
    assert(((((((ptr as u32) as u64) << 32u64) | ((len as u32) as u64)) as i64) as u64 >> 32u64)
        as u32 == ptr as u32) by (bit_vector);
    assert(((((((ptr as u32) as u64) << 32u64) | ((len as u32) as u64)) as i64) as u64
        & 0xFFFF_FFFFu64) as u32 == len as u32) by (bit_vector);
    assert((((((((ptr as u32) as u64) << 32u64) | ((len as u32) as u64)) as i64) as u64 >> 32u64)
        as u32) as i32 == ptr) by (bit_vector);
    assert((((((((ptr as u32) as u64) << 32u64) | ((len as u32) as u64)) as i64) as u64
        & 0xFFFF_FFFFu64) as u32) as i32 == len) by (bit_vector);
}

} // verus!
