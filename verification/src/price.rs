use vstd::prelude::*;

verus! {

/// One price observation: a price in the base asset's unit and the time,
/// in seconds, at which it was recorded.
#[derive(Clone, Copy, Debug, PartialEq, Eq, Structural)]
pub struct PriceData {
    pub price: i128,
    pub timestamp: u64,
}

impl PriceData {
    pub fn new(price: i128, timestamp: u64) -> (data: Self)
        ensures
            data == (PriceData { price, timestamp }),
    {
        Self { price, timestamp }
    }
}

} // verus!
