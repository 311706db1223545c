use vstd::prelude::*;

verus! {

/// How a customer settles an order.
#[derive(Debug, Clone, Copy, PartialEq, Eq, Structural)]
pub enum Method {
    Cash,
    Points,
}

} // verus!
