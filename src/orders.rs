use vstd::prelude::*;

verus! {

/// One order of the orders file.
#[derive(Debug, Clone)]
pub struct Order {
    pub id: u32,
    pub customer_id: u32,
    pub payment_method: String,
}

} // verus!
