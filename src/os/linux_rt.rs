//! Real-time thread preparation that needs no system call.

use vstd::prelude::*;

verus! {

/// Size of a memory page touched by `prefault_stack`.
pub const PAGE_SIZE: usize = 4096;

/// Relies on `std::hint::black_box`: keeps the buffer from being optimised away.
#[verifier::external_body]
fn keep_alive(buffer: Vec<u8>) {
    std::hint::black_box(buffer);
}

/// Allocates `size_bytes` of zeros and writes one byte in every page, so
/// that the pages are resident before real-time work starts.
pub fn prefault_stack(size_bytes: usize) {
    let mut dummy: Vec<u8> = vec![0u8; size_bytes];
    let pages: usize = size_bytes / PAGE_SIZE + if size_bytes % PAGE_SIZE != 0 { 1 } else { 0 };
    let mut k: usize = 0;
    while k < pages
        invariant
            dummy@.len() == size_bytes,
            k <= pages,
            pages as int == size_bytes as int / 4096 + if size_bytes as int % 4096 != 0 { 1int } else { 0int },
        decreases pages - k,
    {
        assert(k as int * 4096 < size_bytes) by (nonlinear_arith)
            requires
                k < pages,
                pages as int == size_bytes as int / 4096 + if size_bytes as int % 4096 != 0 { 1int } else { 0int },
        ;
        let i = k * PAGE_SIZE;
        dummy.set(i, 1);
        k = k + 1;
    }
    keep_alive(dummy);
}

} // verus!
