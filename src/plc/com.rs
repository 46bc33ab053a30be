//! The life counter of the PLC telemetry image.

use vstd::prelude::*;

verus! {

/// Counts telemetry images sent to the PLC; each image carries the value
/// before its own increment.
#[derive(Debug)]
pub struct Lifecounter {
    value: u64,
}

impl Lifecounter {
    pub closed spec fn view(&self) -> u64 {
        self.value
    }

    pub fn new() -> (r: Lifecounter)
        ensures
            r@ == 0,
    {
        Lifecounter { value: 0 }
    }

    /// The current value, then the counter advanced by one (wrapping).
    pub fn fetch_increment(&mut self) -> (r: u64)
        ensures
            r == old(self)@,
            final(self)@ == (if old(self)@ == u64::MAX { 0 } else { (old(self)@ + 1) as u64 }),
    {
        let r = self.value;
        self.value = self.value.wrapping_add(1);
        r
    }
}

/// Sets the life counter to `value`.
pub fn reset_lifecounter(counter: &mut Lifecounter, value: u64)
    ensures
        final(counter)@ == value,
{
    counter.value = value;
}

/// The current life counter, without advancing it.
pub fn get_lifecounter(counter: &Lifecounter) -> (r: u64)
    ensures
        r == counter@,
{
    counter.value
}

} // verus!
